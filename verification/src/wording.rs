//! What a line must say to be taken for a command, and how numbers are read.

use crate::parse::{
    bury_line, kick_count, parsed, parsed_op, put_line, release_line, timeout_line, which, word, Op,
    ParsedView,
};
use crate::proto::{valid_tube_name, CommandView, ResponseView};
use crate::scan::{
    after_run, begins, lemma_run, lemma_run_is, number, numeral, numeral_alone, run, taken, Class,
};
use vstd::prelude::*;
use vstd::string::StringSliceAdditionalSpecFns;
use vstd::utf8::is_ascii_chars_encode_utf8;

verus! {

/// Whether `b` is a decimal digit.
pub open spec fn is_digit(b: u8) -> bool {
    48 <= b <= 57
}

/// Whether `s` is made of spaces alone.
pub open spec fn blank(s: Seq<u8>) -> bool {
    forall|i: int| 0 <= i < s.len() ==> #[trigger] s[i] == 32
}

/// Whether `s` is made of digits alone, of which there are some.
pub open spec fn all_digits(s: Seq<u8>) -> bool {
    s.len() > 0 && forall|i: int| 0 <= i < s.len() ==> is_digit(#[trigger] s[i])
}

/// Whether `s` is spaces, if any, and then digits that spell `n`.
pub open spec fn only_number(s: Seq<u8>, n: nat) -> bool {
    exists|a: int|
        0 <= a <= s.len() && blank(#[trigger] s.take(a)) && all_digits(s.skip(a)) && number(
            s.skip(a),
        ) == n
}

/// A digit more is ten times as much and the digit.
pub proof fn digits_count_by_tens(s: Seq<u8>, d: u8)
    requires
        is_digit(d),
    ensures
        number(s.push(d)) == 10 * number(s) + (d - 48),
        number(Seq::<u8>::empty()) == 0,
{
    assert(s.push(d).drop_last() =~= s);
}

/// A number is read up to its last digit, with spaces before it or none. One that
/// is above the limit is none.
pub proof fn numbers_are_read_whole(sp: Seq<u8>, d: Seq<u8>, rest: Seq<u8>, max: nat)
    requires
        blank(sp),
        all_digits(d),
        rest.len() > 0 ==> !is_digit(rest[0]),
    ensures
        numeral(sp + d + rest, max) == (if number(d) <= max {
            Some((number(d), rest))
        } else {
            None
        }),
        numeral_alone(sp + d + rest, max) == (if number(d) <= max && rest.len() == 0 {
            Some(number(d))
        } else {
            None
        }),
{
    let s = sp + d + rest;
    assert(s[sp.len() as int] == d[0]);
    assert forall|i: int| 0 <= i < sp.len() implies Class::Space.has(#[trigger] s[i]) by {
        assert(s[i] == sp[i]);
    }
    lemma_run_is(s, Class::Space, sp.len() as int);
    let t = d + rest;
    assert(after_run(s, Class::Space) =~= t);
    assert forall|i: int| 0 <= i < d.len() implies Class::Digit.has(#[trigger] t[i]) by {
        assert(t[i] == d[i]);
        assert(is_digit(d[i]));
    }
    if rest.len() > 0 {
        assert(t[d.len() as int] == rest[0]);
    }
    lemma_run_is(t, Class::Digit, d.len() as int);
    assert(taken(t, Class::Digit) =~= d);
    assert(after_run(t, Class::Digit) =~= rest);
}

/// The number behind kick may have a sign, and anything may follow it. Of a number
/// of 64 bits the low 32 count, after a minus those of its negation; a larger one
/// is none.
pub proof fn kick_reads_the_low_bits(sp: Seq<u8>, d: Seq<u8>, rest: Seq<u8>)
    requires
        blank(sp),
        all_digits(d),
        rest.len() > 0 ==> !is_digit(rest[0]),
    ensures
        ({
            let n = number(d) as int;
            let (plain, plus, minus) = (
                kick_count(sp + d + rest),
                kick_count(sp + (seq![43u8] + d + rest)),
                kick_count(sp + (seq![45u8] + d + rest)),
            );
            &&& plus == plain
            &&& n > u64::MAX ==> plain is None && minus is None
            &&& n <= u64::MAX ==> plain is Some && minus is Some && plain->0 == n % 0x1_0000_0000
                && (plain->0 + minus->0) % 0x1_0000_0000 == 0
        }),
{
    let n = number(d) as int;
    lemma_kick(sp, d + rest, d, rest);
    assert(sp + d + rest =~= sp + (d + rest));
    assert((seq![43u8] + d + rest).skip(1) =~= d + rest);
    assert((seq![45u8] + d + rest).skip(1) =~= d + rest);
    lemma_kick(sp, seq![43u8] + d + rest, d, rest);
    lemma_kick(sp, seq![45u8] + d + rest, d, rest);
}

/// What kick makes of what follows the spaces.
proof fn lemma_kick(sp: Seq<u8>, t: Seq<u8>, d: Seq<u8>, rest: Seq<u8>)
    requires
        blank(sp),
        all_digits(d),
        rest.len() > 0 ==> !is_digit(rest[0]),
        t == d + rest || (t.len() > 0 && (t[0] == 43 || t[0] == 45) && t.skip(1) == d + rest),
    ensures
        kick_count(sp + t) == (if number(d) > u64::MAX {
            None
        } else if t.len() > 0 && t[0] == 45 {
            Some(((0 - number(d)) % 0x1_0000_0000) as u32)
        } else {
            Some((number(d) as int % 0x1_0000_0000) as u32)
        }),
{
    let s = sp + t;
    assert(is_digit(d[0]));
    assert((d + rest)[0] == d[0]);
    assert(t.len() > 0 && !Class::Blank.has(t[0]));
    assert(s[sp.len() as int] == t[0]);
    assert forall|i: int| 0 <= i < sp.len() implies Class::Blank.has(#[trigger] s[i]) by {
        assert(s[i] == sp[i]);
    }
    lemma_run_is(s, Class::Blank, sp.len() as int);
    assert(after_run(s, Class::Blank) =~= t);
    let u = d + rest;
    assert forall|i: int| 0 <= i < d.len() implies Class::Digit.has(#[trigger] u[i]) by {
        assert(u[i] == d[i]);
        assert(is_digit(d[i]));
    }
    if rest.len() > 0 {
        assert(u[d.len() as int] == rest[0]);
    }
    lemma_run_is(u, Class::Digit, d.len() as int);
    assert(taken(u, Class::Digit) =~= d);
}

/// The numbers of a put line are taken in their order: priority, delay, time to
/// run, size. Any that does not fit in 32 bits makes the line a bad one; and
/// something behind the last is marked.
pub proof fn put_takes_four_numbers(
    a: Seq<u8>,
    b: Seq<u8>,
    c: Seq<u8>,
    d: Seq<u8>,
    rest: Seq<u8>,
)
    requires
        all_digits(a),
        all_digits(b),
        all_digits(c),
        all_digits(d),
        rest.len() > 0 ==> !is_digit(rest[0]),
    ensures
        ({
            let sp = seq![32u8];
            let r = put_line(a + (sp + b + (sp + c + (sp + d + rest))));
            if number(a) <= u32::MAX && number(b) <= u32::MAX && number(c) <= u32::MAX && number(d)
                <= u32::MAX {
                let h = r->Ok_0->Put_0;
                &&& r is Ok
                &&& r->Ok_0 is Put
                &&& h.pri == number(a)
                &&& h.delay == number(b)
                &&& h.ttr == number(c)
                &&& h.body_size == number(d)
                &&& h.trailing_garbage == (rest.len() > 0)
            } else {
                r == Err::<ParsedView, ResponseView>(ResponseView::BadFormat)
            }
        }),
{
    let sp = seq![32u8];
    let no = Seq::<u8>::empty();
    let r3 = sp + d + rest;
    let r2 = sp + c + r3;
    let r1 = sp + b + r2;
    assert(r3[0] == 32 && r2[0] == 32 && r1[0] == 32);
    numbers_are_read_whole(no, a, r1, u32::MAX as nat);
    numbers_are_read_whole(sp, b, r2, u32::MAX as nat);
    numbers_are_read_whole(sp, c, r3, u32::MAX as nat);
    numbers_are_read_whole(sp, d, rest, u32::MAX as nat);
    assert(no + a + r1 =~= a + r1);
}

/// release takes a job's number, a priority and a delay, and bury a job's number
/// and a priority, in that order, with nothing behind them; any that does not fit
/// makes the line a bad one.
pub proof fn release_and_bury_take_their_numbers(
    a: Seq<u8>,
    b: Seq<u8>,
    c: Seq<u8>,
    rest: Seq<u8>,
)
    requires
        all_digits(a),
        all_digits(b),
        all_digits(c),
        rest.len() > 0 ==> !is_digit(rest[0]),
    ensures
        ({
            let sp = seq![32u8];
            let r = release_line(a + (sp + b + (sp + c + rest)));
            if number(a) <= u64::MAX && number(b) <= u32::MAX && number(c) <= u32::MAX && rest.len()
                == 0 {
                r == Ok::<ParsedView, ResponseView>(
                    ParsedView::Command(
                        CommandView::Release {
                            id: number(a) as u64,
                            pri: number(b) as u32,
                            delay: number(c) as u32,
                        },
                    ),
                )
            } else {
                r == Err::<ParsedView, ResponseView>(ResponseView::BadFormat)
            }
        }),
        ({
            let r = bury_line(a + (seq![32u8] + b + rest));
            if number(a) <= u64::MAX && number(b) <= u32::MAX && rest.len() == 0 {
                r == Ok::<ParsedView, ResponseView>(
                    ParsedView::Command(
                        CommandView::Bury { id: number(a) as u64, pri: number(b) as u32 },
                    ),
                )
            } else {
                r == Err::<ParsedView, ResponseView>(ResponseView::BadFormat)
            }
        }),
{
    let sp = seq![32u8];
    let no = Seq::<u8>::empty();
    let r2 = sp + c + rest;
    let r1 = sp + b + r2;
    let q1 = sp + b + rest;
    assert(r2[0] == 32 && r1[0] == 32 && q1[0] == 32);
    numbers_are_read_whole(no, a, r1, u64::MAX as nat);
    numbers_are_read_whole(sp, b, r2, u32::MAX as nat);
    numbers_are_read_whole(sp, c, rest, u32::MAX as nat);
    numbers_are_read_whole(no, a, q1, u64::MAX as nat);
    numbers_are_read_whole(sp, b, rest, u32::MAX as nat);
    assert(no + a + r1 =~= a + r1);
    assert(no + a + q1 =~= a + q1);
}

/// The limit of a wait fits in 31 bits, and whatever follows it is no matter.
pub proof fn a_wait_has_a_limit_of_31_bits(sp: Seq<u8>, d: Seq<u8>, rest: Seq<u8>)
    requires
        blank(sp),
        all_digits(d),
        rest.len() > 0 ==> !is_digit(rest[0]),
    ensures
        timeout_line(sp + d + rest) == (if number(d) < 0x8000_0000 {
            Ok::<ParsedView, ResponseView>(
                ParsedView::Command(CommandView::ReserveWithTimeout(number(d) as u32)),
            )
        } else {
            Err::<ParsedView, ResponseView>(ResponseView::BadFormat)
        }),
{
    numbers_are_read_whole(sp, d, rest, u32::MAX as nat);
}

/// What is taken for a number alone is spaces and digits that spell it.
pub proof fn a_number_alone_is_its_digits(s: Seq<u8>, max: nat)
    ensures
        numeral_alone(s, max) is Some ==> only_number(s, numeral_alone(s, max)->0)
            && numeral_alone(s, max)->0 <= max,
{
    let a = run(s, Class::Space) as int;
    lemma_run(s, Class::Space);
    let t = after_run(s, Class::Space);
    lemma_run(t, Class::Digit);
    if numeral_alone(s, max) is Some {
        assert(taken(t, Class::Digit) =~= t);
        assert forall|i: int| 0 <= i < t.len() implies is_digit(#[trigger] t[i]) by {
            assert(Class::Digit.has(t[i]));
        }
        assert forall|i: int| 0 <= i < a implies #[trigger] s.take(a)[i] == 32 by {
            assert(Class::Space.has(s[i]));
        }
        assert(blank(s.take(a)) && all_digits(s.skip(a)));
    }
}

/// Whether `line` is `w` and what follows it.
pub open spec fn follows(line: Seq<u8>, w: Seq<u8>) -> bool {
    line.len() >= w.len() && line.take(w.len() as int) == w
}

/// What follows `w` in `line`.
pub open spec fn after(line: Seq<u8>, w: Seq<u8>) -> Seq<u8> {
    line.skip(w.len() as int)
}

/// A line that is taken for a command says so: it begins with the command's word;
/// behind that of one that takes a job stands its number and nothing else, behind
/// that of one that takes a tube its name, and behind that of one that takes
/// nothing, nothing. No such line holds a zero byte.
pub proof fn a_command_is_what_its_line_says(line: Seq<u8>, c: CommandView)
    requires
        parsed(line) == Ok::<ParsedView, ResponseView>(ParsedView::Command(c)),
    ensures
        !line.contains(0u8),
        match c {
            CommandView::Peek(id) => follows(line, "peek ".spec_bytes()) && only_number(
                after(line, "peek ".spec_bytes()),
                id as nat,
            ),
            CommandView::ReserveJob(id) => follows(line, "reserve-job ".spec_bytes()) && only_number(
                after(line, "reserve-job ".spec_bytes()),
                id as nat,
            ),
            CommandView::Delete(id) => follows(line, "delete ".spec_bytes()) && only_number(
                after(line, "delete ".spec_bytes()),
                id as nat,
            ),
            CommandView::KickJob(id) => follows(line, "kick-job ".spec_bytes()) && only_number(
                after(line, "kick-job ".spec_bytes()),
                id as nat,
            ),
            CommandView::Touch(id) => follows(line, "touch ".spec_bytes()) && only_number(
                after(line, "touch ".spec_bytes()),
                id as nat,
            ),
            CommandView::StatsJob(id) => follows(line, "stats-job ".spec_bytes()) && only_number(
                after(line, "stats-job ".spec_bytes()),
                id as nat,
            ),
            CommandView::StatsTube(t) => line == "stats-tube ".spec_bytes() + t && valid_tube_name(t),
            CommandView::Use(t) => line == "use ".spec_bytes() + t && valid_tube_name(t),
            CommandView::Watch(t) => line == "watch ".spec_bytes() + t && valid_tube_name(t),
            CommandView::Ignore(t) => line == "ignore ".spec_bytes() + t && valid_tube_name(t),
            CommandView::PeekReady => line == "peek-ready".spec_bytes(),
            CommandView::PeekDelayed => line == "peek-delayed".spec_bytes(),
            CommandView::PeekBuried => line == "peek-buried".spec_bytes(),
            CommandView::Reserve => line == "reserve".spec_bytes(),
            CommandView::Stats => line == "stats".spec_bytes(),
            CommandView::ListTubesWatched => line == "list-tubes-watched".spec_bytes(),
            CommandView::ListTubeUsed => line == "list-tube-used".spec_bytes(),
            CommandView::ListTubes => line == "list-tubes".spec_bytes(),
            CommandView::Quit => follows(line, "quit".spec_bytes()),
            CommandView::Kick(_) => follows(line, "kick ".spec_bytes()),
            CommandView::ReserveWithTimeout(_) => follows(
                line,
                "reserve-with-timeout ".spec_bytes(),
            ),
            CommandView::Release { .. } => follows(line, "release ".spec_bytes()),
            CommandView::Bury { .. } => follows(line, "bury ".spec_bytes()),
            CommandView::PauseTube { tube, .. } => follows(line, "pause-tube".spec_bytes())
                && valid_tube_name(tube),
            CommandView::PauseTubeBadName => follows(line, "pause-tube".spec_bytes()),
            CommandView::Put { .. } => false,
        },
{
    let op = which(line)->0;
    let rest = line.skip(word(op).len() as int);
    assert(begins(line, word(op)));
    assert(parsed_op(op, rest) == parsed(line));
    assert(line =~= word(op) + rest);
    a_number_alone_is_its_digits(rest, u64::MAX as nat);
    if rest.len() == 0 {
        assert(word(op) + rest =~= word(op));
    }
}

/// A line that begins as no word does is no command.
pub proof fn lemma_no_word_begins_so(line: Seq<u8>)
    requires
        line.len() > 1,
        line[0] == 97,
    ensures
        which(line) is None,
{
    if which(line) is Some {
        let op = which(line)->0;
        lemma_first_letter(op);
        assert(begins(line, word(op)));
        assert(line.take(word(op).len() as int)[0] == line[0]);
    }
}

/// No word begins with an `a`.
proof fn lemma_first_letter(op: Op)
    ensures
        word(op).len() > 0,
        word(op)[0] != 97,
{
    reveal_strlit("put ");
    is_ascii_chars_encode_utf8("put "@);
    reveal_strlit("peek ");
    is_ascii_chars_encode_utf8("peek "@);
    reveal_strlit("peek-ready");
    is_ascii_chars_encode_utf8("peek-ready"@);
    reveal_strlit("peek-delayed");
    is_ascii_chars_encode_utf8("peek-delayed"@);
    reveal_strlit("peek-buried");
    is_ascii_chars_encode_utf8("peek-buried"@);
    reveal_strlit("reserve-with-timeout ");
    is_ascii_chars_encode_utf8("reserve-with-timeout "@);
    reveal_strlit("reserve-job ");
    is_ascii_chars_encode_utf8("reserve-job "@);
    reveal_strlit("reserve");
    is_ascii_chars_encode_utf8("reserve"@);
    reveal_strlit("delete ");
    is_ascii_chars_encode_utf8("delete "@);
    reveal_strlit("release ");
    is_ascii_chars_encode_utf8("release "@);
    reveal_strlit("bury ");
    is_ascii_chars_encode_utf8("bury "@);
    reveal_strlit("kick ");
    is_ascii_chars_encode_utf8("kick "@);
    reveal_strlit("kick-job ");
    is_ascii_chars_encode_utf8("kick-job "@);
    reveal_strlit("touch ");
    is_ascii_chars_encode_utf8("touch "@);
    reveal_strlit("stats-job ");
    is_ascii_chars_encode_utf8("stats-job "@);
    reveal_strlit("stats-tube ");
    is_ascii_chars_encode_utf8("stats-tube "@);
    reveal_strlit("stats");
    is_ascii_chars_encode_utf8("stats"@);
    reveal_strlit("use ");
    is_ascii_chars_encode_utf8("use "@);
    reveal_strlit("watch ");
    is_ascii_chars_encode_utf8("watch "@);
    reveal_strlit("ignore ");
    is_ascii_chars_encode_utf8("ignore "@);
    reveal_strlit("list-tubes-watched");
    is_ascii_chars_encode_utf8("list-tubes-watched"@);
    reveal_strlit("list-tube-used");
    is_ascii_chars_encode_utf8("list-tube-used"@);
    reveal_strlit("list-tubes");
    is_ascii_chars_encode_utf8("list-tubes"@);
    reveal_strlit("quit");
    is_ascii_chars_encode_utf8("quit"@);
    reveal_strlit("pause-tube");
    is_ascii_chars_encode_utf8("pause-tube"@);
}

} // verus!
