//! What the codec makes of what it cannot take: each is answered once, and what
//! follows is read as if nothing had happened.

use crate::codec::{lemma_line_end, line_ends_at, CodecView, State};
use crate::parse::{parsed, word, Op, ParsedView, PutHeader};
use crate::proto::{CommandView, FrameView, PutRejection, ResponseView, LINE_BUF_SIZE};
use crate::response::crlf;
use crate::scan::{begins, number, Class};
use crate::sending::{
    client_line, client_line_is_understood, client_wire, digits_spell_the_number, lemma_clean_line,
    lemma_nothing_left, lemma_which, sendable,
};
use crate::text::decimal;
use crate::wording::{all_digits, is_digit, put_takes_four_numbers};
use vstd::prelude::*;
use vstd::string::StringSliceAdditionalSpecFns;
use vstd::utf8::is_ascii_chars_encode_utf8;

verus! {

/// The line of a put, as the first of a stream.
proof fn lemma_put_line(k: CodecView, c: CommandView, rest: Seq<u8>)
    requires
        k.state == (State::Line { overflowed: false }),
        c is Put,
        c->Put_body.len() <= u32::MAX,
    ensures
        ({
            let s = client_line(c) + crlf() + rest;
            let size = c->Put_body.len() as u32;
            let (d, frame) = if size > k.max_job_size {
                (
                    k.at(State::Discard { remaining: (size + 2) as u64 }),
                    FrameView::PutStarted { too_big: true },
                )
            } else {
                (
                    k.at(
                        State::PutBody {
                            pri: c->Put_pri,
                            delay: c->Put_delay,
                            ttr: c->Put_ttr,
                            body_size: size,
                        },
                    ),
                    FrameView::PutStarted { too_big: false },
                )
            };
            k.decode(s) == (if k.emit_put_started {
                (d, rest, Some(frame))
            } else {
                d.decode(rest)
            })
        }),
{
    let line = client_line(c);
    let s = line + crlf() + rest;
    let n = line.len() as int;
    lemma_clean_line(c, u32::MAX);
    client_line_is_understood(c, u32::MAX);
    assert(s.take(n) =~= line);
    assert(s.skip(n + 2) =~= rest);
    assert(s[n] == 13 && s[n + 1] == 10);
    assert forall|i: int| 0 <= i < n implies s[i] != 13 by {
        assert(s[i] == line[i]);
    }
    assert(line_ends_at(s, n));
    lemma_line_end(s, n);
    assert(!begins(line, "auth ".spec_bytes())) by {
        reveal_strlit("auth ");
        is_ascii_chars_encode_utf8("auth "@);
        assert("auth ".spec_bytes()[0] == 97);
    }
    reveal(CodecView::take_line);
    assert(k.ready() == k);
}

/// What comes out for a put that is refused for `why`, after it was announced as
/// too big or not where the codec announces puts.
pub open spec fn refusal(k: CodecView, too_big: bool, why: PutRejection, r: ResponseView) -> Seq<
    FrameView,
> {
    if k.emit_put_started {
        seq![FrameView::PutStarted { too_big }, FrameView::PutRejected(why)]
    } else {
        seq![FrameView::Error(r)]
    }
}

/// The last frame of a put that is refused.
proof fn lemma_refused(k: CodecView, c: CommandView, rest: Seq<u8>, why: PutRejection)
    requires
        k.state == (State::Line { overflowed: false }),
        c is Put,
        c->Put_body.len() <= u32::MAX,
        rest.len() >= 2,
        ({
            let size = c->Put_body.len() as u32;
            let d = if size > k.max_job_size {
                k.at(State::Discard { remaining: (size + 2) as u64 })
            } else {
                k.at(
                    State::PutBody {
                        pri: c->Put_pri,
                        delay: c->Put_delay,
                        ttr: c->Put_ttr,
                        body_size: size,
                    },
                )
            };
            d.decode(rest) == (k, Seq::<u8>::empty(), Some(k.rejection(why)))
        }),
    ensures
        k.frames(client_line(c) + crlf() + rest) == (
            k,
            Seq::<u8>::empty(),
            refusal(k, c->Put_body.len() > k.max_job_size, why, why.reply()),
        ),
{
    lemma_put_line(k, c, rest);
    lemma_nothing_left(k);
    let s = client_line(c) + crlf() + rest;
    let size = c->Put_body.len() as u32;
    let d = if size > k.max_job_size {
        k.at(State::Discard { remaining: (size + 2) as u64 })
    } else {
        k.at(
            State::PutBody {
                pri: c->Put_pri,
                delay: c->Put_delay,
                ttr: c->Put_ttr,
                body_size: size,
            },
        )
    };
    let last = k.rejection(why);
    assert(d.frames(rest) == (
        k,
        Seq::<u8>::empty(),
        seq![last] + Seq::<FrameView>::empty(),
    ));
    assert(k.frames(s).2 =~= refusal(k, c->Put_body.len() > k.max_job_size, why, why.reply()));
}

/// A put whose body is above the limit is answered JOB_TOO_BIG. Its body is
/// dropped, to the last byte and no further.
pub proof fn a_body_that_is_too_big_is_dropped(k: CodecView, c: CommandView)
    requires
        k.state == (State::Line { overflowed: false }),
        c is Put,
        k.max_job_size < c->Put_body.len() <= u32::MAX,
    ensures
        k.frames(client_wire(c)) == (
            k,
            Seq::<u8>::empty(),
            refusal(k, true, PutRejection::JobTooBig, ResponseView::JobTooBig),
        ),
{
    let rest = c->Put_body + crlf();
    let size = c->Put_body.len() as u32;
    let d = k.at(State::Discard { remaining: (size + 2) as u64 });
    assert(d.ready() == k);
    assert(rest.skip(rest.len() as int) =~= Seq::<u8>::empty());
    assert(d.decode(rest) == (
        k,
        Seq::<u8>::empty(),
        Some(k.rejection(PutRejection::JobTooBig)),
    ));
    assert(client_wire(c) =~= client_line(c) + crlf() + rest);
    lemma_refused(k, c, rest, PutRejection::JobTooBig);
}

/// A put whose body is not followed by the end of a line is answered
/// EXPECTED_CRLF. The two bytes in its place are dropped with the body.
pub proof fn a_body_without_its_end_is_refused(k: CodecView, c: CommandView, e: Seq<u8>)
    requires
        k.state == (State::Line { overflowed: false }),
        c is Put,
        sendable(c, k.max_job_size),
        e.len() == 2,
        e != crlf(),
    ensures
        k.frames(client_line(c) + crlf() + (c->Put_body + e)) == (
            k,
            Seq::<u8>::empty(),
            refusal(k, false, PutRejection::ExpectedCrlf, ResponseView::ExpectedCrlf),
        ),
{
    let body = c->Put_body;
    let rest = body + e;
    let size = body.len() as u32;
    let d = k.at(
        State::PutBody {
            pri: c->Put_pri,
            delay: c->Put_delay,
            ttr: c->Put_ttr,
            body_size: size,
        },
    );
    assert(d.ready() == k);
    assert(rest[size as int] == e[0] && rest[size + 1] == e[1]);
    assert(!(e[0] == 13 && e[1] == 10)) by {
        if e[0] == 13 && e[1] == 10 {
            assert(e =~= crlf());
        }
    }
    assert(rest.skip(rest.len() as int) =~= Seq::<u8>::empty());
    lemma_refused(k, c, rest, PutRejection::ExpectedCrlf);
}

/// A put line with something behind its last number is answered BAD_FORMAT, and what
/// follows it is read as lines: there is no body. If the size is above the limit,
/// though, the put counts as too big, and that much is dropped.
pub proof fn a_put_line_with_more_is_refused(k: CodecView, c: CommandView, x: Seq<u8>)
    requires
        k.state == (State::Line { overflowed: false }),
        c is Put,
        c->Put_body.len() <= u32::MAX,
        x.len() > 0,
        !(48 <= x[0] <= 57),
        !x.contains(0u8),
        !x.contains(13u8),
        client_line(c).len() + x.len() <= 222,
    ensures
        c->Put_body.len() <= k.max_job_size ==> k.frames(client_line(c) + x + crlf()) == (
            k,
            Seq::<u8>::empty(),
            if k.emit_put_started {
                seq![FrameView::PutRejected(PutRejection::TrailingGarbage)]
            } else {
                seq![FrameView::Error(ResponseView::BadFormat)]
            },
        ),
        c->Put_body.len() > k.max_job_size ==> k.frames(
            client_line(c) + x + crlf() + c->Put_body + crlf(),
        ) == (
            k,
            Seq::<u8>::empty(),
            refusal(k, true, PutRejection::JobTooBig, ResponseView::JobTooBig),
        ),
{
    let big = c->Put_body.len() > k.max_job_size;
    let rest = if big {
        c->Put_body + crlf()
    } else {
        Seq::<u8>::empty()
    };
    let s = client_line(c) + x + crlf() + rest;
    lemma_more_decoded(k, c, x, rest);
    lemma_nothing_left(k);
    if big {
        let d = k.at(State::Discard { remaining: (c->Put_body.len() as u32 + 2) as u64 });
        assert(d.ready() == k);
        assert(rest.skip(rest.len() as int) =~= Seq::<u8>::empty());
        assert(s =~= client_line(c) + x + crlf() + c->Put_body + crlf());
        let last = k.rejection(PutRejection::JobTooBig);
        assert(d.frames(rest) == (
            k,
            Seq::<u8>::empty(),
            seq![last] + Seq::<FrameView>::empty(),
        ));
        assert(k.frames(s).2 =~= refusal(
            k,
            true,
            PutRejection::JobTooBig,
            ResponseView::JobTooBig,
        ));
    } else {
        assert(s =~= client_line(c) + x + crlf());
        assert(k.frames(s).2 =~= seq![k.rejection(PutRejection::TrailingGarbage)]);
    }
}

/// A put line with something behind its last number, as the first of a stream.
proof fn lemma_more_decoded(k: CodecView, c: CommandView, x: Seq<u8>, rest: Seq<u8>)
    requires
        k.state == (State::Line { overflowed: false }),
        c is Put,
        c->Put_body.len() <= u32::MAX,
        x.len() > 0,
        !(48 <= x[0] <= 57),
        !x.contains(0u8),
        !x.contains(13u8),
        client_line(c).len() + x.len() <= 222,
    ensures
        ({
            let s = client_line(c) + x + crlf() + rest;
            let d = k.at(State::Discard { remaining: (c->Put_body.len() as u32 + 2) as u64 });
            k.decode(s) == (if c->Put_body.len() <= k.max_job_size {
                (k, rest, Some(k.rejection(PutRejection::TrailingGarbage)))
            } else if k.emit_put_started {
                (d, rest, Some(FrameView::PutStarted { too_big: true }))
            } else {
                d.decode(rest)
            })
        }),
{
    let line = client_line(c) + x;
    let s = line + crlf() + rest;
    let n = line.len() as int;
    lemma_more_behind(c, x);
    lemma_clean_line(c, u32::MAX);
    assert(s.take(n) =~= line);
    assert(s.skip(n + 2) =~= rest);
    assert(s[n] == 13 && s[n + 1] == 10);
    assert forall|i: int| 0 <= i < n implies s[i] != 13 by {
        if i < client_line(c).len() {
            assert(s[i] == client_line(c)[i]);
        } else {
            assert(s[i] == x[i - client_line(c).len()]);
            assert(x.contains(s[i]));
        }
    }
    assert(line_ends_at(s, n));
    lemma_line_end(s, n);
    assert(!begins(line, "auth ".spec_bytes())) by {
        reveal_strlit("auth ");
        is_ascii_chars_encode_utf8("auth "@);
        assert("auth ".spec_bytes()[0] == 97);
        assert(line[0] == client_line(c)[0]);
        assert(line.take(5)[0] == line[0]);
    }
    reveal(CodecView::take_line);
    assert(k.ready() == k);
}

/// What a put line with something behind its last number amounts to.
proof fn lemma_more_behind(c: CommandView, x: Seq<u8>)
    requires
        c is Put,
        c->Put_body.len() <= u32::MAX,
        x.len() > 0,
        !(48 <= x[0] <= 57),
        !x.contains(0u8),
    ensures
        parsed(client_line(c) + x) == Ok::<ParsedView, ResponseView>(
            ParsedView::Put(
                PutHeader {
                    pri: c->Put_pri,
                    delay: c->Put_delay,
                    ttr: c->Put_ttr,
                    body_size: c->Put_body.len() as u32,
                    trailing_garbage: true,
                },
            ),
        ),
{
    let sp = seq![32u8];
    let (p, d, t, b) = (
        decimal(c->Put_pri as nat),
        decimal(c->Put_delay as nat),
        decimal(c->Put_ttr as nat),
        decimal(c->Put_body.len()),
    );
    lemma_all_digits(c->Put_pri as nat);
    lemma_all_digits(c->Put_delay as nat);
    lemma_all_digits(c->Put_ttr as nat);
    lemma_all_digits(c->Put_body.len());
    put_takes_four_numbers(p, d, t, b, x);
    let args = p + (sp + d + (sp + t + (sp + b + x)));
    let line = client_line(c) + x;
    assert(line =~= word(Op::Put) + args);
    lemma_which(Op::Put, args);
    lemma_clean_line(c, u32::MAX);
    assert(!line.contains(0u8)) by {
        if line.contains(0u8) {
            let i = line.index_of(0u8);
            if i < client_line(c).len() {
                assert(client_line(c)[i] == 0);
            } else {
                assert(x[i - client_line(c).len()] == 0);
            }
        }
    }
}

/// A number is spelt in digits.
proof fn lemma_all_digits(n: nat)
    ensures
        all_digits(decimal(n)),
        number(decimal(n)) == n,
{
    digits_spell_the_number(n);
    assert forall|i: int| 0 <= i < decimal(n).len() implies is_digit(#[trigger] decimal(n)[i]) by {
        assert(Class::Digit.has(decimal(n)[i]));
    }
}

/// What is left of a line that is too long.
proof fn lemma_overlong(k: CodecView, x: Seq<u8>)
    requires
        k.state == (State::Line { overflowed: true }),
        !x.contains(13u8),
        (x.len() + 1) % 224 != 0,
    ensures
        k.decode(x + crlf()) == (
            k.ready(),
            Seq::<u8>::empty(),
            Some(FrameView::Error(ResponseView::BadFormat)),
        ),
    decreases x.len(),
{
    let s = x + crlf();
    let n = x.len() as int;
    assert forall|i: int| 0 <= i < n implies s[i] != 13 by {
        assert(s[i] == x[i]);
        assert(x.contains(x[i]));
    }
    if n + 1 < 224 {
        assert(line_ends_at(s, n));
        lemma_line_end(s, n);
        assert(s.skip(n + 2) =~= Seq::<u8>::empty());
    } else {
        assert forall|i: int| !line_ends_at(s, i) by {}
        let y = x.skip(224);
        assert(!y.contains(13u8)) by {
            if y.contains(13u8) {
                let i = y.index_of(13u8);
                assert(x[i + 224] == 13);
            }
        }
        assert(s.skip(LINE_BUF_SIZE as int) =~= y + crlf());
        lemma_overlong(k, y);
    }
}

/// A line of 223 bytes or more, without its end, is answered BAD_FORMAT, once,
/// and the next line is read afresh. (The codec drops such a line 224 bytes at a
/// time, and misses an end that is cut in two by that.)
pub proof fn a_line_that_is_too_long_is_refused(k: CodecView, x: Seq<u8>)
    requires
        k.state == (State::Line { overflowed: false }),
        x.len() >= 223,
        !x.contains(13u8),
        (x.len() + 1) % 224 != 0,
    ensures
        k.frames(x + crlf()) == (
            k,
            Seq::<u8>::empty(),
            seq![FrameView::Error(ResponseView::BadFormat)],
        ),
{
    let s = x + crlf();
    let d = k.at(State::Line { overflowed: true });
    assert forall|i: int| 0 <= i < x.len() implies s[i] != 13 by {
        assert(s[i] == x[i]);
        assert(x.contains(x[i]));
    }
    assert forall|i: int| !line_ends_at(s, i) by {}
    let y = x.skip(224);
    assert(!y.contains(13u8)) by {
        if y.contains(13u8) {
            let i = y.index_of(13u8);
            assert(x[i + 224] == 13);
        }
    }
    assert(s.skip(LINE_BUF_SIZE as int) =~= y + crlf());
    lemma_overlong(d, y);
    assert(d.ready() == k);
    lemma_nothing_left(k);
    assert(k.frames(s).2 =~= seq![FrameView::Error(ResponseView::BadFormat)]);
}

/// Where the codec is to recognize it, `auth` and a token come out as that token,
/// whatever else it might be taken for; and where not, as a command that is not
/// known.
pub proof fn a_token_comes_out_as_sent(k: CodecView, token: Seq<u8>)
    requires
        k.state == (State::Line { overflowed: false }),
        token.len() <= 217,
        !token.contains(13u8),
    ensures
        ({
            let (d, left, frames) = k.frames("auth ".spec_bytes() + token + crlf());
            &&& d == k
            &&& left.len() == 0
            &&& k.recognize_auth ==> frames == seq![FrameView::Auth(token)]
            &&& !k.recognize_auth && !token.contains(0u8) ==> frames == seq![
                FrameView::Error(ResponseView::UnknownCommand),
            ]
        }),
{
    let word = "auth ".spec_bytes();
    reveal_strlit("auth ");
    is_ascii_chars_encode_utf8("auth "@);
    assert(word =~= seq![97u8, 117u8, 116u8, 104u8, 32u8]);
    let line = word + token;
    let s = line + crlf();
    let n = line.len() as int;
    assert(s =~= word + token + crlf());
    assert(s.take(n) =~= line);
    assert(s.skip(n + 2) =~= Seq::<u8>::empty());
    assert forall|i: int| 0 <= i < n implies s[i] != 13 by {
        if i >= 5 {
            assert(s[i] == token[i - 5]);
            assert(token.contains(token[i - 5]));
        } else {
            assert(s[i] == word[i]);
        }
    }
    assert(line_ends_at(s, n));
    lemma_line_end(s, n);
    assert(line.take(5) =~= word);
    assert(line.skip(5) =~= token);
    assert(k.ready() == k);
    reveal(CodecView::take_line);
    lemma_nothing_left(k);
    if k.recognize_auth {
        assert(k.frames(s).2 =~= seq![FrameView::Auth(token)]);
    } else {
        crate::wording::lemma_no_word_begins_so(line);
        if !token.contains(0u8) {
            assert(!line.contains(0u8)) by {
                if line.contains(0u8) {
                    let i = line.index_of(0u8);
                    if i >= 5 {
                        assert(token[i - 5] == 0);
                    } else {
                        assert(word[i] == 0);
                    }
                }
            }
            assert(k.frames(s).2 =~= seq![FrameView::Error(ResponseView::UnknownCommand)]);
        }
    }
}

} // verus!
