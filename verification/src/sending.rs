//! What a well-behaved client sends, and what the server makes of it.

use crate::codec::{lemma_line_end, line_ends_at, CodecView, State};
use crate::parse::{
    bury_line, kick_count, parsed, parsed_op, pause_line, put_line, release_line, which, word, Op,
    Parsed, ParsedView, PutHeader,
};
use crate::proto::{name_char, valid_tube_name, CommandView, FrameView, ResponseView};
use crate::response::crlf;
use crate::scan::{begins, lemma_run_is, number, numeral, numeral_alone, Class};
use crate::stream::{chunking_is_invisible, joined};
use crate::text::decimal;
use vstd::prelude::*;
use vstd::string::StringSliceAdditionalSpecFns;
use vstd::utf8::is_ascii_chars_encode_utf8;

verus! {

/// The words of the commands are what they read.
proof fn lemma_words()
    ensures
        word(Op::Put).len() == 4,
        word(Op::Put)[0] == 112,
        word(Op::Put)[1] == 117,
        word(Op::Put)[2] == 116,
        word(Op::PeekJob).len() == 5,
        word(Op::PeekJob)[0] == 112,
        word(Op::PeekJob)[1] == 101,
        word(Op::PeekJob)[2] == 101,
        word(Op::PeekJob)[4] == 32,
        word(Op::PeekReady).len() == 10,
        word(Op::PeekReady)[0] == 112,
        word(Op::PeekReady)[1] == 101,
        word(Op::PeekReady)[2] == 101,
        word(Op::PeekReady)[4] == 45,
        word(Op::PeekReady)[5] == 114,
        word(Op::PeekReady)[6] == 101,
        word(Op::PeekReady)[8] == 100,
        word(Op::PeekReady)[9] == 121,
        word(Op::PeekDelayed).len() == 12,
        word(Op::PeekDelayed)[0] == 112,
        word(Op::PeekDelayed)[1] == 101,
        word(Op::PeekDelayed)[2] == 101,
        word(Op::PeekDelayed)[4] == 45,
        word(Op::PeekDelayed)[5] == 100,
        word(Op::PeekDelayed)[6] == 101,
        word(Op::PeekDelayed)[8] == 97,
        word(Op::PeekDelayed)[9] == 121,
        word(Op::PeekBuried).len() == 11,
        word(Op::PeekBuried)[0] == 112,
        word(Op::PeekBuried)[1] == 101,
        word(Op::PeekBuried)[2] == 101,
        word(Op::PeekBuried)[4] == 45,
        word(Op::PeekBuried)[5] == 98,
        word(Op::PeekBuried)[6] == 117,
        word(Op::PeekBuried)[8] == 105,
        word(Op::PeekBuried)[9] == 101,
        word(Op::ReserveTimeout).len() == 21,
        word(Op::ReserveTimeout)[0] == 114,
        word(Op::ReserveTimeout)[1] == 101,
        word(Op::ReserveTimeout)[2] == 115,
        word(Op::ReserveTimeout)[4] == 114,
        word(Op::ReserveTimeout)[5] == 118,
        word(Op::ReserveTimeout)[6] == 101,
        word(Op::ReserveTimeout)[8] == 119,
        word(Op::ReserveTimeout)[9] == 105,
        word(Op::ReserveJob).len() == 12,
        word(Op::ReserveJob)[0] == 114,
        word(Op::ReserveJob)[1] == 101,
        word(Op::ReserveJob)[2] == 115,
        word(Op::ReserveJob)[4] == 114,
        word(Op::ReserveJob)[5] == 118,
        word(Op::ReserveJob)[6] == 101,
        word(Op::ReserveJob)[8] == 106,
        word(Op::ReserveJob)[9] == 111,
        word(Op::Reserve).len() == 7,
        word(Op::Reserve)[0] == 114,
        word(Op::Reserve)[1] == 101,
        word(Op::Reserve)[2] == 115,
        word(Op::Reserve)[4] == 114,
        word(Op::Reserve)[5] == 118,
        word(Op::Reserve)[6] == 101,
        word(Op::Delete).len() == 7,
        word(Op::Delete)[0] == 100,
        word(Op::Delete)[1] == 101,
        word(Op::Delete)[2] == 108,
        word(Op::Delete)[4] == 116,
        word(Op::Delete)[5] == 101,
        word(Op::Delete)[6] == 32,
        word(Op::Release).len() == 8,
        word(Op::Release)[0] == 114,
        word(Op::Release)[1] == 101,
        word(Op::Release)[2] == 108,
        word(Op::Release)[4] == 97,
        word(Op::Release)[5] == 115,
        word(Op::Release)[6] == 101,
        word(Op::Bury).len() == 5,
        word(Op::Bury)[0] == 98,
        word(Op::Bury)[1] == 117,
        word(Op::Bury)[2] == 114,
        word(Op::Bury)[4] == 32,
        word(Op::Kick).len() == 5,
        word(Op::Kick)[0] == 107,
        word(Op::Kick)[1] == 105,
        word(Op::Kick)[2] == 99,
        word(Op::Kick)[4] == 32,
        word(Op::KickJob).len() == 9,
        word(Op::KickJob)[0] == 107,
        word(Op::KickJob)[1] == 105,
        word(Op::KickJob)[2] == 99,
        word(Op::KickJob)[4] == 45,
        word(Op::KickJob)[5] == 106,
        word(Op::KickJob)[6] == 111,
        word(Op::KickJob)[8] == 32,
        word(Op::Touch).len() == 6,
        word(Op::Touch)[0] == 116,
        word(Op::Touch)[1] == 111,
        word(Op::Touch)[2] == 117,
        word(Op::Touch)[4] == 104,
        word(Op::Touch)[5] == 32,
        word(Op::StatsJob).len() == 10,
        word(Op::StatsJob)[0] == 115,
        word(Op::StatsJob)[1] == 116,
        word(Op::StatsJob)[2] == 97,
        word(Op::StatsJob)[4] == 115,
        word(Op::StatsJob)[5] == 45,
        word(Op::StatsJob)[6] == 106,
        word(Op::StatsJob)[8] == 98,
        word(Op::StatsJob)[9] == 32,
        word(Op::StatsTube).len() == 11,
        word(Op::StatsTube)[0] == 115,
        word(Op::StatsTube)[1] == 116,
        word(Op::StatsTube)[2] == 97,
        word(Op::StatsTube)[4] == 115,
        word(Op::StatsTube)[5] == 45,
        word(Op::StatsTube)[6] == 116,
        word(Op::StatsTube)[8] == 98,
        word(Op::StatsTube)[9] == 101,
        word(Op::Stats).len() == 5,
        word(Op::Stats)[0] == 115,
        word(Op::Stats)[1] == 116,
        word(Op::Stats)[2] == 97,
        word(Op::Stats)[4] == 115,
        word(Op::Use).len() == 4,
        word(Op::Use)[0] == 117,
        word(Op::Use)[1] == 115,
        word(Op::Use)[2] == 101,
        word(Op::Watch).len() == 6,
        word(Op::Watch)[0] == 119,
        word(Op::Watch)[1] == 97,
        word(Op::Watch)[2] == 116,
        word(Op::Watch)[4] == 104,
        word(Op::Watch)[5] == 32,
        word(Op::Ignore).len() == 7,
        word(Op::Ignore)[0] == 105,
        word(Op::Ignore)[1] == 103,
        word(Op::Ignore)[2] == 110,
        word(Op::Ignore)[4] == 114,
        word(Op::Ignore)[5] == 101,
        word(Op::Ignore)[6] == 32,
        word(Op::ListTubesWatched).len() == 18,
        word(Op::ListTubesWatched)[0] == 108,
        word(Op::ListTubesWatched)[1] == 105,
        word(Op::ListTubesWatched)[2] == 115,
        word(Op::ListTubesWatched)[4] == 45,
        word(Op::ListTubesWatched)[5] == 116,
        word(Op::ListTubesWatched)[6] == 117,
        word(Op::ListTubesWatched)[8] == 101,
        word(Op::ListTubesWatched)[9] == 115,
        word(Op::ListTubeUsed).len() == 14,
        word(Op::ListTubeUsed)[0] == 108,
        word(Op::ListTubeUsed)[1] == 105,
        word(Op::ListTubeUsed)[2] == 115,
        word(Op::ListTubeUsed)[4] == 45,
        word(Op::ListTubeUsed)[5] == 116,
        word(Op::ListTubeUsed)[6] == 117,
        word(Op::ListTubeUsed)[8] == 101,
        word(Op::ListTubeUsed)[9] == 45,
        word(Op::ListTubes).len() == 10,
        word(Op::ListTubes)[0] == 108,
        word(Op::ListTubes)[1] == 105,
        word(Op::ListTubes)[2] == 115,
        word(Op::ListTubes)[4] == 45,
        word(Op::ListTubes)[5] == 116,
        word(Op::ListTubes)[6] == 117,
        word(Op::ListTubes)[8] == 101,
        word(Op::ListTubes)[9] == 115,
        word(Op::Quit).len() == 4,
        word(Op::Quit)[0] == 113,
        word(Op::Quit)[1] == 117,
        word(Op::Quit)[2] == 105,
        word(Op::PauseTube).len() == 10,
        word(Op::PauseTube)[0] == 112,
        word(Op::PauseTube)[1] == 97,
        word(Op::PauseTube)[2] == 117,
        word(Op::PauseTube)[4] == 101,
        word(Op::PauseTube)[5] == 45,
        word(Op::PauseTube)[6] == 116,
        word(Op::PauseTube)[8] == 98,
        word(Op::PauseTube)[9] == 101,
{
    reveal_strlit("put ");
    is_ascii_chars_encode_utf8("put "@);
    reveal_strlit("peek ");
    is_ascii_chars_encode_utf8("peek "@);
    reveal_strlit("peek-ready");
    is_ascii_chars_encode_utf8("peek-ready"@);
    reveal_strlit("peek-delayed");
    is_ascii_chars_encode_utf8("peek-delayed"@);
    reveal_strlit("peek-buried");
    is_ascii_chars_encode_utf8("peek-buried"@);
    reveal_strlit("reserve-with-timeout ");
    is_ascii_chars_encode_utf8("reserve-with-timeout "@);
    reveal_strlit("reserve-job ");
    is_ascii_chars_encode_utf8("reserve-job "@);
    reveal_strlit("reserve");
    is_ascii_chars_encode_utf8("reserve"@);
    reveal_strlit("delete ");
    is_ascii_chars_encode_utf8("delete "@);
    reveal_strlit("release ");
    is_ascii_chars_encode_utf8("release "@);
    reveal_strlit("bury ");
    is_ascii_chars_encode_utf8("bury "@);
    reveal_strlit("kick ");
    is_ascii_chars_encode_utf8("kick "@);
    reveal_strlit("kick-job ");
    is_ascii_chars_encode_utf8("kick-job "@);
    reveal_strlit("touch ");
    is_ascii_chars_encode_utf8("touch "@);
    reveal_strlit("stats-job ");
    is_ascii_chars_encode_utf8("stats-job "@);
    reveal_strlit("stats-tube ");
    is_ascii_chars_encode_utf8("stats-tube "@);
    reveal_strlit("stats");
    is_ascii_chars_encode_utf8("stats"@);
    reveal_strlit("use ");
    is_ascii_chars_encode_utf8("use "@);
    reveal_strlit("watch ");
    is_ascii_chars_encode_utf8("watch "@);
    reveal_strlit("ignore ");
    is_ascii_chars_encode_utf8("ignore "@);
    reveal_strlit("list-tubes-watched");
    is_ascii_chars_encode_utf8("list-tubes-watched"@);
    reveal_strlit("list-tube-used");
    is_ascii_chars_encode_utf8("list-tube-used"@);
    reveal_strlit("list-tubes");
    is_ascii_chars_encode_utf8("list-tubes"@);
    reveal_strlit("quit");
    is_ascii_chars_encode_utf8("quit"@);
    reveal_strlit("pause-tube");
    is_ascii_chars_encode_utf8("pause-tube"@);
}

/// A line that begins with the word of a command, and behind which nothing
/// stands where the word is the front of another's, gives that command.
pub proof fn lemma_which(op: Op, args: Seq<u8>)
    requires
        op == Op::Reserve || op == Op::Stats || op == Op::ListTubes ==> args.len() == 0,
    ensures
        which(word(op) + args) == Some(op),
        (word(op) + args).skip(word(op).len() as int) == args,
{
    lemma_words();
    let line = word(op) + args;
    assert(line.take(word(op).len() as int) =~= word(op));
    assert(line.skip(word(op).len() as int) =~= args);
    assert(begins(line, word(op)));
}

/// A number's digits spell it.
pub proof fn digits_spell_the_number(n: nat)
    ensures
        number(decimal(n)) == n,
        decimal(n).len() >= 1,
        forall|i: int| 0 <= i < decimal(n).len() ==> Class::Digit.has(#[trigger] decimal(n)[i]),
    decreases n,
{
    if n >= 10 {
        digits_spell_the_number(n / 10);
        assert(decimal(n).drop_last() =~= decimal(n / 10));
    } else {
        assert(decimal(n).drop_last() =~= Seq::<u8>::empty());
        assert(number(Seq::<u8>::empty()) == 0);
    }
}

/// A number of 32 bits has at most 10 digits, and one of 64 bits at most 20.
proof fn lemma_digit_count(n: nat)
    ensures
        n <= u32::MAX ==> decimal(n).len() <= 10,
        n <= u64::MAX ==> decimal(n).len() <= 20,
{
    reveal_with_fuel(decimal, 21);
}

/// Whether no digit stands at the front of `s`.
spec fn no_digit(s: Seq<u8>) -> bool {
    s.len() > 0 ==> !Class::Digit.has(s[0])
}

/// A number is read off the front of a line, with or without a space before it.
proof fn lemma_numeral(n: nat, rest: Seq<u8>, max: nat)
    requires
        n <= max,
        no_digit(rest),
    ensures
        numeral(decimal(n) + rest, max) == Some((n, rest)),
        numeral(seq![32u8] + decimal(n) + rest, max) == Some((n, rest)),
{
    digits_spell_the_number(n);
    let d = decimal(n);
    let s = d + rest;
    let t = seq![32u8] + d + rest;
    assert(s[0] == d[0]);
    lemma_run_is(s, Class::Space, 0);
    assert(s.skip(0) =~= s);
    assert(t[1] == d[0]);
    lemma_run_is(t, Class::Space, 1);
    assert(t.skip(1) =~= s);
    assert forall|i: int| 0 <= i < d.len() implies Class::Digit.has(#[trigger] s[i]) by {
        assert(s[i] == d[i]);
    }
    lemma_run_is(s, Class::Digit, d.len() as int);
    assert(s.take(d.len() as int) =~= d);
    assert(s.skip(d.len() as int) =~= rest);
}

/// A number that ends a line.
proof fn lemma_numeral_alone(n: nat, max: nat)
    requires
        n <= max,
    ensures
        numeral_alone(decimal(n), max) == Some(n),
        numeral_alone(seq![32u8] + decimal(n), max) == Some(n),
{
    lemma_numeral(n, Seq::empty(), max);
    assert(decimal(n) + Seq::<u8>::empty() =~= decimal(n));
    assert(seq![32u8] + decimal(n) + Seq::<u8>::empty() =~= seq![32u8] + decimal(n));
}

/// Whether `s` holds neither a zero byte nor a carriage return.
pub open spec fn clean(s: Seq<u8>) -> bool {
    forall|i: int| 0 <= i < s.len() ==> #[trigger] s[i] != 0 && s[i] != 13
}

/// Digits are clean.
proof fn lemma_clean_number(n: nat)
    ensures
        clean(decimal(n)),
{
    digits_spell_the_number(n);
    assert forall|i: int| 0 <= i < decimal(n).len() implies #[trigger] decimal(n)[i] != 0
        && decimal(n)[i] != 13 by {
        assert(Class::Digit.has(decimal(n)[i]));
    }
}

/// What a client sends after the word of a command.
pub open spec fn client_args(c: CommandView) -> Seq<u8> {
    let space = seq![32u8];
    match c {
        CommandView::Put { pri, delay, ttr, body } => decimal(pri as nat) + (space + decimal(
            delay as nat,
        ) + (space + decimal(ttr as nat) + (space + decimal(body.len())))),
        CommandView::Use(t) => t,
        CommandView::ReserveWithTimeout(n) => decimal(n as nat),
        CommandView::ReserveJob(id) => decimal(id as nat),
        CommandView::Delete(id) => decimal(id as nat),
        CommandView::Release { id, pri, delay } => decimal(id as nat) + (space + decimal(
            pri as nat,
        ) + (space + decimal(delay as nat))),
        CommandView::Bury { id, pri } => decimal(id as nat) + (space + decimal(pri as nat)),
        CommandView::Touch(id) => decimal(id as nat),
        CommandView::Watch(t) => t,
        CommandView::Ignore(t) => t,
        CommandView::Peek(id) => decimal(id as nat),
        CommandView::Kick(n) => decimal(n as nat),
        CommandView::KickJob(id) => decimal(id as nat),
        CommandView::StatsJob(id) => decimal(id as nat),
        CommandView::StatsTube(t) => t,
        CommandView::PauseTube { tube, delay } => space + (tube + (space + decimal(delay as nat))),
        _ => Seq::empty(),
    }
}

/// The command word for `c`.
pub open spec fn client_op(c: CommandView) -> Op {
    match c {
        CommandView::Put { .. } => Op::Put,
        CommandView::Use(_) => Op::Use,
        CommandView::Reserve => Op::Reserve,
        CommandView::ReserveWithTimeout(_) => Op::ReserveTimeout,
        CommandView::ReserveJob(_) => Op::ReserveJob,
        CommandView::Delete(_) => Op::Delete,
        CommandView::Release { .. } => Op::Release,
        CommandView::Bury { .. } => Op::Bury,
        CommandView::Touch(_) => Op::Touch,
        CommandView::Watch(_) => Op::Watch,
        CommandView::Ignore(_) => Op::Ignore,
        CommandView::Peek(_) => Op::PeekJob,
        CommandView::PeekReady => Op::PeekReady,
        CommandView::PeekDelayed => Op::PeekDelayed,
        CommandView::PeekBuried => Op::PeekBuried,
        CommandView::Kick(_) => Op::Kick,
        CommandView::KickJob(_) => Op::KickJob,
        CommandView::StatsJob(_) => Op::StatsJob,
        CommandView::StatsTube(_) => Op::StatsTube,
        CommandView::Stats => Op::Stats,
        CommandView::ListTubes => Op::ListTubes,
        CommandView::ListTubeUsed => Op::ListTubeUsed,
        CommandView::ListTubesWatched => Op::ListTubesWatched,
        CommandView::Quit => Op::Quit,
        CommandView::PauseTube { .. } => Op::PauseTube,
        CommandView::PauseTubeBadName => Op::PauseTube,
    }
}

/// The line that a client sends for `c`, without its `\r\n`: the word of the
/// command and its arguments, with one space between any two of them.
pub open spec fn client_line(c: CommandView) -> Seq<u8> {
    word(client_op(c)) + client_args(c)
}

/// All that a client sends for `c`.
pub open spec fn client_wire(c: CommandView) -> Seq<u8> {
    match c {
        CommandView::Put { body, .. } => client_line(c) + crlf() + body + crlf(),
        _ => client_line(c) + crlf(),
    }
}

/// Whether `c` can be sent to a server that takes bodies of up to `max` bytes.
pub open spec fn sendable(c: CommandView, max: u32) -> bool {
    match c {
        CommandView::Put { body, .. } => body.len() <= max,
        CommandView::ReserveWithTimeout(n) => n <= i32::MAX,
        CommandView::Use(t) => valid_tube_name(t),
        CommandView::Watch(t) => valid_tube_name(t),
        CommandView::Ignore(t) => valid_tube_name(t),
        CommandView::StatsTube(t) => valid_tube_name(t),
        CommandView::PauseTube { tube, .. } => valid_tube_name(tube),
        CommandView::PauseTubeBadName => false,
        _ => true,
    }
}

/// What a line that a client sends is understood as.
pub open spec fn understood(c: CommandView) -> Parsed {
    match c {
        CommandView::Put { pri, delay, ttr, body } => Ok(
            ParsedView::Put(
                PutHeader {
                    pri,
                    delay,
                    ttr,
                    body_size: body.len() as u32,
                    trailing_garbage: false,
                },
            ),
        ),
        _ => Ok(ParsedView::Command(c)),
    }
}

/// The arguments of a put are read as what they stand for.
proof fn lemma_put_args(pri: u32, delay: u32, ttr: u32, size: nat)
    requires
        size <= u32::MAX,
    ensures
        put_line(
            decimal(pri as nat) + (seq![32u8] + decimal(delay as nat) + (seq![32u8] + decimal(
                ttr as nat,
            ) + (seq![32u8] + decimal(size)))),
        ) == Ok::<ParsedView, ResponseView>(
            ParsedView::Put(
                PutHeader { pri, delay, ttr, body_size: size as u32, trailing_garbage: false },
            ),
        ),
{
    let space = seq![32u8];
    let d = space + decimal(size);
    let e = space + decimal(ttr as nat) + d;
    let f = space + decimal(delay as nat) + e;
    lemma_numeral(pri as nat, f, u32::MAX as nat);
    lemma_numeral(delay as nat, e, u32::MAX as nat);
    lemma_numeral(ttr as nat, d, u32::MAX as nat);
    lemma_numeral(size, Seq::empty(), u32::MAX as nat);
    assert(d + Seq::<u8>::empty() =~= d);
}

/// The arguments of a release are read as what they stand for.
proof fn lemma_release_args(id: u64, pri: u32, delay: u32)
    ensures
        release_line(
            decimal(id as nat) + (seq![32u8] + decimal(pri as nat) + (seq![32u8] + decimal(
                delay as nat,
            ))),
        ) == Ok::<ParsedView, ResponseView>(
            ParsedView::Command(CommandView::Release { id, pri, delay }),
        ),
{
    let d = seq![32u8] + decimal(delay as nat);
    let e = seq![32u8] + decimal(pri as nat) + d;
    lemma_numeral(id as nat, e, u64::MAX as nat);
    lemma_numeral(pri as nat, d, u32::MAX as nat);
    lemma_numeral_alone(delay as nat, u32::MAX as nat);
}

/// The arguments of a bury are read as what they stand for.
proof fn lemma_bury_args(id: u64, pri: u32)
    ensures
        bury_line(decimal(id as nat) + (seq![32u8] + decimal(pri as nat))) == Ok::<
            ParsedView,
            ResponseView,
        >(ParsedView::Command(CommandView::Bury { id, pri })),
{
    let d = seq![32u8] + decimal(pri as nat);
    lemma_numeral(id as nat, d, u64::MAX as nat);
    lemma_numeral_alone(pri as nat, u32::MAX as nat);
}

/// The number that a kick is given is read as that number.
proof fn lemma_kick_args(n: u32)
    ensures
        kick_count(decimal(n as nat)) == Some(n),
{
    let d = decimal(n as nat);
    digits_spell_the_number(n as nat);
    assert(Class::Digit.has(d[0]));
    lemma_run_is(d, Class::Blank, 0);
    assert(d.skip(0) =~= d);
    lemma_run_is(d, Class::Digit, d.len() as int);
    assert(d.take(d.len() as int) =~= d);
}

/// The arguments of a pause are read as what they stand for.
proof fn lemma_pause_args(tube: Seq<u8>, delay: u32)
    requires
        valid_tube_name(tube),
    ensures
        pause_line(seq![32u8] + (tube + (seq![32u8] + decimal(delay as nat)))) == Ok::<
            ParsedView,
            ResponseView,
        >(ParsedView::Command(CommandView::PauseTube { tube, delay })),
{
    let d = seq![32u8] + decimal(delay as nat);
    let t = tube + d;
    let s = seq![32u8] + t;
    assert(t[0] == tube[0]);
    assert(name_char(tube[0]));
    assert(s[1] == t[0]);
    lemma_run_is(s, Class::Space, 1);
    assert(s.skip(1) =~= t);
    assert forall|i: int| 0 <= i < tube.len() implies Class::Name.has(#[trigger] t[i]) by {
        assert(t[i] == tube[i]);
    }
    assert(t[tube.len() as int] == 32);
    lemma_run_is(t, Class::Name, tube.len() as int);
    assert(t.take(tube.len() as int) =~= tube);
    assert(t.skip(tube.len() as int) =~= d);
    lemma_numeral_alone(delay as nat, u32::MAX as nat);
}

/// The arguments are read as what they stand for.
proof fn lemma_args(c: CommandView, max: u32)
    requires
        sendable(c, max),
    ensures
        parsed_op(client_op(c), client_args(c)) == understood(c),
{
    match c {
        CommandView::Put { pri, delay, ttr, body } => lemma_put_args(pri, delay, ttr, body.len()),
        CommandView::Release { id, pri, delay } => lemma_release_args(id, pri, delay),
        CommandView::Bury { id, pri } => lemma_bury_args(id, pri),
        CommandView::ReserveWithTimeout(n) => {
            lemma_numeral(n as nat, Seq::empty(), u32::MAX as nat);
            assert(decimal(n as nat) + Seq::<u8>::empty() =~= decimal(n as nat));
        },
        CommandView::Kick(n) => lemma_kick_args(n),
        CommandView::PauseTube { tube, delay } => lemma_pause_args(tube, delay),
        CommandView::ReserveJob(id) => lemma_numeral_alone(id as nat, u64::MAX as nat),
        CommandView::Delete(id) => lemma_numeral_alone(id as nat, u64::MAX as nat),
        CommandView::Touch(id) => lemma_numeral_alone(id as nat, u64::MAX as nat),
        CommandView::Peek(id) => lemma_numeral_alone(id as nat, u64::MAX as nat),
        CommandView::KickJob(id) => lemma_numeral_alone(id as nat, u64::MAX as nat),
        CommandView::StatsJob(id) => lemma_numeral_alone(id as nat, u64::MAX as nat),
        _ => {},
    }
}

/// The word of a command is clean.
proof fn lemma_clean_word(op: Op)
    ensures
        clean(word(op)),
        word(op).len() <= 21,
        word(op).len() >= 1,
        word(op)[0] != 97,
{
    match op {
        Op::Put => {
            reveal_strlit("put ");
            is_ascii_chars_encode_utf8("put "@);
            assert(word(op) =~= seq![112u8, 117u8, 116u8, 32u8]);
        },
        Op::PeekJob => {
            reveal_strlit("peek ");
            is_ascii_chars_encode_utf8("peek "@);
            assert(word(op) =~= seq![112u8, 101u8, 101u8, 107u8, 32u8]);
        },
        Op::PeekReady => {
            reveal_strlit("peek-ready");
            is_ascii_chars_encode_utf8("peek-ready"@);
            assert(word(op) =~= seq![112u8, 101u8, 101u8, 107u8, 45u8, 114u8, 101u8, 97u8, 100u8, 121u8]);
        },
        Op::PeekDelayed => {
            reveal_strlit("peek-delayed");
            is_ascii_chars_encode_utf8("peek-delayed"@);
            assert(word(op) =~= seq![112u8, 101u8, 101u8, 107u8, 45u8, 100u8, 101u8, 108u8, 97u8, 121u8, 101u8, 100u8]);
        },
        Op::PeekBuried => {
            reveal_strlit("peek-buried");
            is_ascii_chars_encode_utf8("peek-buried"@);
            assert(word(op) =~= seq![112u8, 101u8, 101u8, 107u8, 45u8, 98u8, 117u8, 114u8, 105u8, 101u8, 100u8]);
        },
        Op::ReserveTimeout => {
            reveal_strlit("reserve-with-timeout ");
            is_ascii_chars_encode_utf8("reserve-with-timeout "@);
            assert(word(op) =~= seq![114u8, 101u8, 115u8, 101u8, 114u8, 118u8, 101u8, 45u8, 119u8, 105u8, 116u8, 104u8, 45u8, 116u8, 105u8, 109u8, 101u8, 111u8, 117u8, 116u8, 32u8]);
        },
        Op::ReserveJob => {
            reveal_strlit("reserve-job ");
            is_ascii_chars_encode_utf8("reserve-job "@);
            assert(word(op) =~= seq![114u8, 101u8, 115u8, 101u8, 114u8, 118u8, 101u8, 45u8, 106u8, 111u8, 98u8, 32u8]);
        },
        Op::Reserve => {
            reveal_strlit("reserve");
            is_ascii_chars_encode_utf8("reserve"@);
            assert(word(op) =~= seq![114u8, 101u8, 115u8, 101u8, 114u8, 118u8, 101u8]);
        },
        Op::Delete => {
            reveal_strlit("delete ");
            is_ascii_chars_encode_utf8("delete "@);
            assert(word(op) =~= seq![100u8, 101u8, 108u8, 101u8, 116u8, 101u8, 32u8]);
        },
        Op::Release => {
            reveal_strlit("release ");
            is_ascii_chars_encode_utf8("release "@);
            assert(word(op) =~= seq![114u8, 101u8, 108u8, 101u8, 97u8, 115u8, 101u8, 32u8]);
        },
        Op::Bury => {
            reveal_strlit("bury ");
            is_ascii_chars_encode_utf8("bury "@);
            assert(word(op) =~= seq![98u8, 117u8, 114u8, 121u8, 32u8]);
        },
        Op::Kick => {
            reveal_strlit("kick ");
            is_ascii_chars_encode_utf8("kick "@);
            assert(word(op) =~= seq![107u8, 105u8, 99u8, 107u8, 32u8]);
        },
        Op::KickJob => {
            reveal_strlit("kick-job ");
            is_ascii_chars_encode_utf8("kick-job "@);
            assert(word(op) =~= seq![107u8, 105u8, 99u8, 107u8, 45u8, 106u8, 111u8, 98u8, 32u8]);
        },
        Op::Touch => {
            reveal_strlit("touch ");
            is_ascii_chars_encode_utf8("touch "@);
            assert(word(op) =~= seq![116u8, 111u8, 117u8, 99u8, 104u8, 32u8]);
        },
        Op::StatsJob => {
            reveal_strlit("stats-job ");
            is_ascii_chars_encode_utf8("stats-job "@);
            assert(word(op) =~= seq![115u8, 116u8, 97u8, 116u8, 115u8, 45u8, 106u8, 111u8, 98u8, 32u8]);
        },
        Op::StatsTube => {
            reveal_strlit("stats-tube ");
            is_ascii_chars_encode_utf8("stats-tube "@);
            assert(word(op) =~= seq![115u8, 116u8, 97u8, 116u8, 115u8, 45u8, 116u8, 117u8, 98u8, 101u8, 32u8]);
        },
        Op::Stats => {
            reveal_strlit("stats");
            is_ascii_chars_encode_utf8("stats"@);
            assert(word(op) =~= seq![115u8, 116u8, 97u8, 116u8, 115u8]);
        },
        Op::Use => {
            reveal_strlit("use ");
            is_ascii_chars_encode_utf8("use "@);
            assert(word(op) =~= seq![117u8, 115u8, 101u8, 32u8]);
        },
        Op::Watch => {
            reveal_strlit("watch ");
            is_ascii_chars_encode_utf8("watch "@);
            assert(word(op) =~= seq![119u8, 97u8, 116u8, 99u8, 104u8, 32u8]);
        },
        Op::Ignore => {
            reveal_strlit("ignore ");
            is_ascii_chars_encode_utf8("ignore "@);
            assert(word(op) =~= seq![105u8, 103u8, 110u8, 111u8, 114u8, 101u8, 32u8]);
        },
        Op::ListTubesWatched => {
            reveal_strlit("list-tubes-watched");
            is_ascii_chars_encode_utf8("list-tubes-watched"@);
            assert(word(op) =~= seq![108u8, 105u8, 115u8, 116u8, 45u8, 116u8, 117u8, 98u8, 101u8, 115u8, 45u8, 119u8, 97u8, 116u8, 99u8, 104u8, 101u8, 100u8]);
        },
        Op::ListTubeUsed => {
            reveal_strlit("list-tube-used");
            is_ascii_chars_encode_utf8("list-tube-used"@);
            assert(word(op) =~= seq![108u8, 105u8, 115u8, 116u8, 45u8, 116u8, 117u8, 98u8, 101u8, 45u8, 117u8, 115u8, 101u8, 100u8]);
        },
        Op::ListTubes => {
            reveal_strlit("list-tubes");
            is_ascii_chars_encode_utf8("list-tubes"@);
            assert(word(op) =~= seq![108u8, 105u8, 115u8, 116u8, 45u8, 116u8, 117u8, 98u8, 101u8, 115u8]);
        },
        Op::Quit => {
            reveal_strlit("quit");
            is_ascii_chars_encode_utf8("quit"@);
            assert(word(op) =~= seq![113u8, 117u8, 105u8, 116u8]);
        },
        Op::PauseTube => {
            reveal_strlit("pause-tube");
            is_ascii_chars_encode_utf8("pause-tube"@);
            assert(word(op) =~= seq![112u8, 97u8, 117u8, 115u8, 101u8, 45u8, 116u8, 117u8, 98u8, 101u8]);
        },
    }
}

/// What a client sends as arguments is clean.
proof fn lemma_clean_args(c: CommandView, max: u32)
    requires
        sendable(c, max),
    ensures
        clean(client_args(c)),
        client_args(c).len() <= 212,
        client_op(c) != Op::PauseTube ==> client_args(c).len() <= 200,
{
    match c {
        CommandView::Put { pri, delay, ttr, body } => {
            lemma_clean_number(pri as nat);
            lemma_clean_number(delay as nat);
            lemma_clean_number(ttr as nat);
            lemma_clean_number(body.len());
            lemma_digit_count(pri as nat);
            lemma_digit_count(delay as nat);
            lemma_digit_count(ttr as nat);
            lemma_digit_count(body.len());
        },
        CommandView::Release { id, pri, delay } => {
            lemma_clean_number(id as nat);
            lemma_clean_number(pri as nat);
            lemma_clean_number(delay as nat);
            lemma_digit_count(id as nat);
            lemma_digit_count(pri as nat);
            lemma_digit_count(delay as nat);
        },
        CommandView::Bury { id, pri } => {
            lemma_clean_number(id as nat);
            lemma_clean_number(pri as nat);
            lemma_digit_count(id as nat);
            lemma_digit_count(pri as nat);
        },
        CommandView::PauseTube { tube, delay } => {
            lemma_clean_number(delay as nat);
            lemma_digit_count(delay as nat);
            assert(clean(tube)) by {
                assert forall|i: int| 0 <= i < tube.len() implies #[trigger] tube[i] != 0
                    && tube[i] != 13 by {
                    assert(name_char(tube[i]));
                }
            }
        },
        CommandView::ReserveWithTimeout(n) => {
            lemma_clean_number(n as nat);
            lemma_digit_count(n as nat);
        },
        CommandView::Kick(n) => {
            lemma_clean_number(n as nat);
            lemma_digit_count(n as nat);
        },
        CommandView::ReserveJob(id) => {
            lemma_clean_number(id as nat);
            lemma_digit_count(id as nat);
        },
        CommandView::Delete(id) => {
            lemma_clean_number(id as nat);
            lemma_digit_count(id as nat);
        },
        CommandView::Touch(id) => {
            lemma_clean_number(id as nat);
            lemma_digit_count(id as nat);
        },
        CommandView::Peek(id) => {
            lemma_clean_number(id as nat);
            lemma_digit_count(id as nat);
        },
        CommandView::KickJob(id) => {
            lemma_clean_number(id as nat);
            lemma_digit_count(id as nat);
        },
        CommandView::StatsJob(id) => {
            lemma_clean_number(id as nat);
            lemma_digit_count(id as nat);
        },
        CommandView::Use(t) => lemma_clean_name(t),
        CommandView::Watch(t) => lemma_clean_name(t),
        CommandView::Ignore(t) => lemma_clean_name(t),
        CommandView::StatsTube(t) => lemma_clean_name(t),
        _ => {},
    }
}

/// Tube names are clean.
proof fn lemma_clean_name(t: Seq<u8>)
    requires
        valid_tube_name(t),
    ensures
        clean(t),
{
    assert forall|i: int| 0 <= i < t.len() implies #[trigger] t[i] != 0 && t[i] != 13 by {
        assert(name_char(t[i]));
    }
}

/// The line that a client sends is clean, and fits.
pub proof fn lemma_clean_line(c: CommandView, max: u32)
    requires
        sendable(c, max),
    ensures
        clean(client_line(c)),
        client_line(c).len() <= 222,
        client_line(c).len() >= 1,
        client_line(c)[0] != 97,
{
    lemma_clean_word(client_op(c));
    lemma_clean_args(c, max);
    let w = word(client_op(c));
    let a = client_args(c);
    if client_op(c) == Op::PauseTube {
        lemma_words();
    }
    assert forall|i: int| 0 <= i < (w + a).len() implies #[trigger] (w + a)[i] != 0 && (w + a)[i]
        != 13 by {
        if i < w.len() {
            assert((w + a)[i] == w[i]);
        } else {
            assert((w + a)[i] == a[i - w.len()]);
        }
    }
}

/// The line that a client sends for a command is understood as that command.
pub proof fn client_line_is_understood(c: CommandView, max: u32)
    requires
        sendable(c, max),
    ensures
        parsed(client_line(c)) == understood(c),
{
    lemma_clean_line(c, max);
    lemma_which(client_op(c), client_args(c));
    lemma_args(c, max);
    assert(!client_line(c).contains(0u8)) by {
        if client_line(c).contains(0u8) {
            let i = client_line(c).index_of(0u8);
            assert(client_line(c)[i] != 0);
        }
    }
}

/// What comes out of a codec for a command that a client sends.
pub open spec fn frames_for(k: CodecView, c: CommandView) -> Seq<FrameView> {
    if k.emit_put_started && c is Put {
        seq![FrameView::PutStarted { too_big: false }, FrameView::Command(c)]
    } else {
        seq![FrameView::Command(c)]
    }
}

/// Where the codec is after the line of a command.
spec fn after_line(k: CodecView, c: CommandView) -> CodecView {
    match c {
        CommandView::Put { pri, delay, ttr, body } => k.at(
            State::PutBody { pri, delay, ttr, body_size: body.len() as u32 },
        ),
        _ => k,
    }
}

/// What comes out at the end of the line of a command.
spec fn at_line(k: CodecView, c: CommandView) -> Option<FrameView> {
    if !(c is Put) {
        Some(FrameView::Command(c))
    } else if k.emit_put_started {
        Some(FrameView::PutStarted { too_big: false })
    } else {
        None
    }
}

/// What the codec makes of the line of a command.
proof fn lemma_client_line(k: CodecView, c: CommandView)
    requires
        k.state == (State::Line { overflowed: false }),
        sendable(c, k.max_job_size),
    ensures
        k.take_line(client_line(c)) == (after_line(k, c), at_line(k, c)),
{
    let line = client_line(c);
    lemma_clean_line(c, k.max_job_size);
    client_line_is_understood(c, k.max_job_size);
    assert(!begins(line, "auth ".spec_bytes())) by {
        reveal_strlit("auth ");
        is_ascii_chars_encode_utf8("auth "@);
        assert("auth ".spec_bytes()[0] == 97);
    }
    reveal(CodecView::take_line);
    assert(k.ready() == k);
}

/// What the codec makes of a stream that begins with the line of a command.
proof fn lemma_client_wire(k: CodecView, c: CommandView)
    requires
        k.state == (State::Line { overflowed: false }),
        sendable(c, k.max_job_size),
    ensures
        ({
            let rest = client_wire(c).skip(client_line(c).len() as int + 2);
            k.decode(client_wire(c)) == (if at_line(k, c) is Some {
                (after_line(k, c), rest, at_line(k, c))
            } else {
                after_line(k, c).decode(rest)
            })
        }),
        c is Put ==> client_wire(c).skip(client_line(c).len() as int + 2) == c->Put_body + crlf(),
        !(c is Put) ==> client_wire(c).skip(client_line(c).len() as int + 2) == Seq::<u8>::empty(),
        client_wire(c).len() >= client_line(c).len() + 2,
{
    let line = client_line(c);
    let s = client_wire(c);
    let n = line.len() as int;
    lemma_clean_line(c, k.max_job_size);
    assert(s.take(n) =~= line);
    assert(s[n] == 13 && s[n + 1] == 10);
    assert forall|i: int| 0 <= i < n implies s[i] != 13 by {
        assert(s[i] == line[i]);
    }
    assert(line_ends_at(s, n));
    lemma_line_end(s, n);
    lemma_client_line(k, c);
    if c is Put {
        assert(s.skip(n + 2) =~= c->Put_body + crlf());
    } else {
        assert(s.skip(n + 2) =~= Seq::<u8>::empty());
    }
}

/// What the codec makes of the body of a put.
proof fn lemma_client_body(k: CodecView, c: CommandView)
    requires
        k.state == (State::Line { overflowed: false }),
        c is Put,
        sendable(c, k.max_job_size),
    ensures
        after_line(k, c).decode(c->Put_body + crlf()) == (
            k,
            Seq::<u8>::empty(),
            Some(FrameView::Command(c)),
        ),
{
    let t = c->Put_body + crlf();
    let b = c->Put_body.len() as int;
    assert(t.take(b) =~= c->Put_body);
    assert(t.skip(b + 2) =~= Seq::<u8>::empty());
    assert(after_line(k, c).ready() == k);
}

/// A command that a client sends comes out of the codec as that command, with
/// nothing left and nothing added, and the codec is ready for the next.
pub proof fn sent_command_comes_back(k: CodecView, c: CommandView)
    requires
        k.wf(),
        k.state == (State::Line { overflowed: false }),
        sendable(c, k.max_job_size),
    ensures
        k.frames(client_wire(c)) == (k, Seq::<u8>::empty(), frames_for(k, c)),
{
    lemma_client_wire(k, c);
    lemma_nothing_left(k);
    let s = client_wire(c);
    let d = after_line(k, c);
    if c is Put {
        let t = c->Put_body + crlf();
        lemma_client_body(k, c);
        assert(d.frames(t) == (
            k,
            Seq::<u8>::empty(),
            seq![FrameView::Command(c)] + Seq::<FrameView>::empty(),
        ));
        assert(k.frames(s).2 =~= frames_for(k, c));
    } else {
        assert(k.frames(s).2 =~= frames_for(k, c));
    }
}

/// No frame comes out of an empty stream.
pub proof fn lemma_nothing_left(k: CodecView)
    requires
        k.state == (State::Line { overflowed: false }),
    ensures
        k.frames(Seq::empty()) == (k, Seq::<u8>::empty(), Seq::<FrameView>::empty()),
{
    assert forall|i: int| !line_ends_at(Seq::<u8>::empty(), i) by {}
}

/// The same, however what the client sends is cut up on its way: byte by byte,
/// or in any other pieces.
pub proof fn sent_command_comes_back_in_pieces(
    k: CodecView,
    c: CommandView,
    chunks: Seq<Seq<u8>>,
)
    requires
        k.wf(),
        k.state == (State::Line { overflowed: false }),
        sendable(c, k.max_job_size),
        joined(chunks) == client_wire(c),
    ensures
        k.fed(chunks) == (k, Seq::<u8>::empty(), frames_for(k, c)),
{
    sent_command_comes_back(k, c);
    chunking_is_invisible(k, chunks);
}

} // verus!
