//! Reading replies: what the server writes is what the client reads.

use crate::load::{body_of, ends_line};
use crate::proto::{name_char, valid_tube_name, ResponseView};
use crate::reply::{
    all_digits, lemma_line_end, lemma_word_end, line_end, lossy, plain_number, reply_of, words,
    ReplyView,
};
use crate::response::{crlf, wire};
use crate::scan::Class;
use crate::sending::digits_spell_the_number;
use crate::text::decimal;
use vstd::prelude::*;
use vstd::string::StringSliceAdditionalSpecFns;
use vstd::utf8::is_ascii_chars_encode_utf8;

verus! {

/// Whether a client can read the reply: its numbers and sizes fit.
pub open spec fn readable(r: ResponseView) -> bool {
    match r {
        ResponseView::Using(tube) => valid_tube_name(tube),
        ResponseView::Watching(n) => n <= u32::MAX,
        ResponseView::Reserved { body, .. } => body.len() <= usize::MAX,
        ResponseView::Found { body, .. } => body.len() <= usize::MAX,
        ResponseView::OkBody(body) => body.len() <= usize::MAX,
        _ => true,
    }
}

/// The body that comes with a reply, if one does.
pub open spec fn sent_body(r: ResponseView) -> Option<Seq<u8>> {
    match r {
        ResponseView::Reserved { body, .. } => Some(body),
        ResponseView::Found { body, .. } => Some(body),
        ResponseView::OkBody(body) => Some(body),
        _ => None,
    }
}

/// What a client makes of the line of a reply. Those that the load generator
/// has no use for are one and the same to it.
pub open spec fn read_as(r: ResponseView, line: Seq<u8>) -> ReplyView {
    match r {
        ResponseView::Inserted(id) => ReplyView::Inserted(id),
        ResponseView::Reserved { id, body } => ReplyView::Reserved {
            id,
            body_len: body.len() as usize,
        },
        ResponseView::Deleted => ReplyView::Deleted,
        ResponseView::TimedOut => ReplyView::TimedOut,
        ResponseView::Using(_) => ReplyView::Using,
        ResponseView::Watching(n) => ReplyView::Watching(n as u32),
        ResponseView::OkBody(body) => ReplyView::OkBody(body.len() as usize),
        ResponseView::Authenticated => ReplyView::Authenticated,
        _ => ReplyView::Other(lossy(line)),
    }
}

/// Whether `s` has neither spaces nor line feeds.
spec fn solid(s: Seq<u8>) -> bool {
    forall|i: int| 0 <= i < s.len() ==> (#[trigger] s[i]) != 32 && s[i] != 10
}

/// A line without spaces is one word.
proof fn lemma_one_word(a: Seq<u8>)
    requires
        solid(a),
    ensures
        words(a) == seq![a],
{
    lemma_word_end(a, a.len() as int);
}

/// A word and a space before a line are one word more.
proof fn lemma_more_words(a: Seq<u8>, rest: Seq<u8>)
    requires
        solid(a),
    ensures
        words(a + seq![32u8] + rest) == seq![a] + words(rest),
{
    let s = a + seq![32u8] + rest;
    assert forall|i: int| 0 <= i < a.len() implies s[i] != 32 by {
        assert(s[i] == a[i]);
    }
    lemma_word_end(s, a.len() as int);
    assert(s.take(a.len() as int) =~= a);
    assert(s.skip(a.len() as int + 1) =~= rest);
}

/// A number is one word, and is read as itself.
proof fn lemma_number(n: nat, max: nat)
    requires
        n <= max,
    ensures
        solid(decimal(n)),
        words(decimal(n)) == seq![decimal(n)],
        plain_number(decimal(n), max) == Some(n),
{
    digits_spell_the_number(n);
    let d = decimal(n);
    assert forall|i: int| 0 <= i < d.len() implies (#[trigger] d[i]) != 32 && d[i] != 10 by {
        assert(Class::Digit.has(d[i]));
    }
    lemma_one_word(d);
    assert(Class::Digit.has(d[0]));
    assert(all_digits(d));
}

/// Where the line ends, and what follows it.
proof fn lemma_line(line: Seq<u8>, rest: Seq<u8>)
    requires
        forall|i: int| 0 <= i < line.len() ==> (#[trigger] line[i]) != 10,
    ensures
        ({
            let s = line + crlf() + rest;
            let n = line_end(s);
            &&& n == line.len() + 1
            &&& n < s.len()
            &&& ends_line(s.take(n + 1))
            &&& s.take(n - 1) == line
            &&& s.skip(n + 1) == rest
        }),
{
    let s = line + crlf() + rest;
    let n = line.len() as int + 1;
    assert forall|i: int| 0 <= i < n implies s[i] != 10 by {
        if i < line.len() {
            assert(s[i] == line[i]);
        }
    }
    assert(s[n] == 10);
    lemma_line_end(s, n);
    assert(s.take(n - 1) =~= line);
    assert(s.skip(n + 1) =~= rest);
    assert(s.take(n + 1)[n - 1] == 13);
}

/// How the words of replies are spelled, as far as it matters: none has a space,
/// and those that a client tells apart are different.
proof fn lemma_words_alone()
    ensures
        solid("BURIED".spec_bytes()),
        "BURIED".spec_bytes().len() == 6,
        "BURIED".spec_bytes()[0] == 66,
        solid("KICKED".spec_bytes()),
        "KICKED".spec_bytes().len() == 6,
        "KICKED".spec_bytes()[0] == 75,
        solid("DEADLINE_SOON".spec_bytes()),
        "DEADLINE_SOON".spec_bytes().len() == 13,
        "DEADLINE_SOON".spec_bytes()[0] == 68,
        solid("TIMED_OUT".spec_bytes()),
        "TIMED_OUT".spec_bytes().len() == 9,
        "TIMED_OUT".spec_bytes()[0] == 84,
        solid("DELETED".spec_bytes()),
        "DELETED".spec_bytes().len() == 7,
        "DELETED".spec_bytes()[0] == 68,
        solid("RELEASED".spec_bytes()),
        "RELEASED".spec_bytes().len() == 8,
        "RELEASED".spec_bytes()[0] == 82,
        solid("TOUCHED".spec_bytes()),
        "TOUCHED".spec_bytes().len() == 7,
        "TOUCHED".spec_bytes()[0] == 84,
        solid("NOT_FOUND".spec_bytes()),
        "NOT_FOUND".spec_bytes().len() == 9,
        "NOT_FOUND".spec_bytes()[0] == 78,
        solid("NOT_IGNORED".spec_bytes()),
        "NOT_IGNORED".spec_bytes().len() == 11,
        "NOT_IGNORED".spec_bytes()[0] == 78,
        solid("PAUSED".spec_bytes()),
        "PAUSED".spec_bytes().len() == 6,
        "PAUSED".spec_bytes()[0] == 80,
        solid("EXPECTED_CRLF".spec_bytes()),
        "EXPECTED_CRLF".spec_bytes().len() == 13,
        "EXPECTED_CRLF".spec_bytes()[0] == 69,
        solid("JOB_TOO_BIG".spec_bytes()),
        "JOB_TOO_BIG".spec_bytes().len() == 11,
        "JOB_TOO_BIG".spec_bytes()[0] == 74,
        solid("DRAINING".spec_bytes()),
        "DRAINING".spec_bytes().len() == 8,
        "DRAINING".spec_bytes()[0] == 68,
        solid("OUT_OF_MEMORY".spec_bytes()),
        "OUT_OF_MEMORY".spec_bytes().len() == 13,
        "OUT_OF_MEMORY".spec_bytes()[0] == 79,
        solid("INTERNAL_ERROR".spec_bytes()),
        "INTERNAL_ERROR".spec_bytes().len() == 14,
        "INTERNAL_ERROR".spec_bytes()[0] == 73,
        solid("BAD_FORMAT".spec_bytes()),
        "BAD_FORMAT".spec_bytes().len() == 10,
        "BAD_FORMAT".spec_bytes()[0] == 66,
        solid("UNKNOWN_COMMAND".spec_bytes()),
        "UNKNOWN_COMMAND".spec_bytes().len() == 15,
        "UNKNOWN_COMMAND".spec_bytes()[0] == 85,
        solid("AUTHENTICATED".spec_bytes()),
        "AUTHENTICATED".spec_bytes().len() == 13,
        "AUTHENTICATED".spec_bytes()[0] == 65,
        solid("UNAUTHORIZED".spec_bytes()),
        "UNAUTHORIZED".spec_bytes().len() == 12,
        "UNAUTHORIZED".spec_bytes()[0] == 85,
        solid("INSERTED".spec_bytes()),
        "INSERTED".spec_bytes().len() == 8,
        "INSERTED".spec_bytes()[0] == 73,
        solid("USING".spec_bytes()),
        "USING".spec_bytes().len() == 5,
        "USING".spec_bytes()[0] == 85,
        solid("RESERVED".spec_bytes()),
        "RESERVED".spec_bytes().len() == 8,
        "RESERVED".spec_bytes()[0] == 82,
        solid("FOUND".spec_bytes()),
        "FOUND".spec_bytes().len() == 5,
        "FOUND".spec_bytes()[0] == 70,
        solid("WATCHING".spec_bytes()),
        "WATCHING".spec_bytes().len() == 8,
        "WATCHING".spec_bytes()[0] == 87,
        solid("OK".spec_bytes()),
        "OK".spec_bytes().len() == 2,
        "OK".spec_bytes()[0] == 79,
{
    reveal_strlit("BURIED");
    is_ascii_chars_encode_utf8("BURIED"@);
    reveal_strlit("KICKED");
    is_ascii_chars_encode_utf8("KICKED"@);
    reveal_strlit("DEADLINE_SOON");
    is_ascii_chars_encode_utf8("DEADLINE_SOON"@);
    reveal_strlit("TIMED_OUT");
    is_ascii_chars_encode_utf8("TIMED_OUT"@);
    reveal_strlit("DELETED");
    is_ascii_chars_encode_utf8("DELETED"@);
    reveal_strlit("RELEASED");
    is_ascii_chars_encode_utf8("RELEASED"@);
    reveal_strlit("TOUCHED");
    is_ascii_chars_encode_utf8("TOUCHED"@);
    reveal_strlit("NOT_FOUND");
    is_ascii_chars_encode_utf8("NOT_FOUND"@);
    reveal_strlit("NOT_IGNORED");
    is_ascii_chars_encode_utf8("NOT_IGNORED"@);
    reveal_strlit("PAUSED");
    is_ascii_chars_encode_utf8("PAUSED"@);
    reveal_strlit("EXPECTED_CRLF");
    is_ascii_chars_encode_utf8("EXPECTED_CRLF"@);
    reveal_strlit("JOB_TOO_BIG");
    is_ascii_chars_encode_utf8("JOB_TOO_BIG"@);
    reveal_strlit("DRAINING");
    is_ascii_chars_encode_utf8("DRAINING"@);
    reveal_strlit("OUT_OF_MEMORY");
    is_ascii_chars_encode_utf8("OUT_OF_MEMORY"@);
    reveal_strlit("INTERNAL_ERROR");
    is_ascii_chars_encode_utf8("INTERNAL_ERROR"@);
    reveal_strlit("BAD_FORMAT");
    is_ascii_chars_encode_utf8("BAD_FORMAT"@);
    reveal_strlit("UNKNOWN_COMMAND");
    is_ascii_chars_encode_utf8("UNKNOWN_COMMAND"@);
    reveal_strlit("AUTHENTICATED");
    is_ascii_chars_encode_utf8("AUTHENTICATED"@);
    reveal_strlit("UNAUTHORIZED");
    is_ascii_chars_encode_utf8("UNAUTHORIZED"@);
    reveal_strlit("INSERTED");
    is_ascii_chars_encode_utf8("INSERTED"@);
    reveal_strlit("USING");
    is_ascii_chars_encode_utf8("USING"@);
    reveal_strlit("RESERVED");
    is_ascii_chars_encode_utf8("RESERVED"@);
    reveal_strlit("FOUND");
    is_ascii_chars_encode_utf8("FOUND"@);
    reveal_strlit("WATCHING");
    is_ascii_chars_encode_utf8("WATCHING"@);
    reveal_strlit("OK");
    is_ascii_chars_encode_utf8("OK"@);
}

/// A word with a space behind it.
proof fn lemma_words_before()
    ensures
        "INSERTED ".spec_bytes() == "INSERTED".spec_bytes() + seq![32u8],
        "BURIED ".spec_bytes() == "BURIED".spec_bytes() + seq![32u8],
        "USING ".spec_bytes() == "USING".spec_bytes() + seq![32u8],
        "RESERVED ".spec_bytes() == "RESERVED".spec_bytes() + seq![32u8],
        "FOUND ".spec_bytes() == "FOUND".spec_bytes() + seq![32u8],
        "WATCHING ".spec_bytes() == "WATCHING".spec_bytes() + seq![32u8],
        "KICKED ".spec_bytes() == "KICKED".spec_bytes() + seq![32u8],
        "OK ".spec_bytes() == "OK".spec_bytes() + seq![32u8],
        " ".spec_bytes() == seq![32u8],
{
    reveal_strlit("INSERTED ");
    reveal_strlit("INSERTED");
    is_ascii_chars_encode_utf8("INSERTED "@);
    is_ascii_chars_encode_utf8("INSERTED"@);
    assert("INSERTED ".spec_bytes() =~= "INSERTED".spec_bytes() + seq![32u8]);
    reveal_strlit("BURIED ");
    reveal_strlit("BURIED");
    is_ascii_chars_encode_utf8("BURIED "@);
    is_ascii_chars_encode_utf8("BURIED"@);
    assert("BURIED ".spec_bytes() =~= "BURIED".spec_bytes() + seq![32u8]);
    reveal_strlit("USING ");
    reveal_strlit("USING");
    is_ascii_chars_encode_utf8("USING "@);
    is_ascii_chars_encode_utf8("USING"@);
    assert("USING ".spec_bytes() =~= "USING".spec_bytes() + seq![32u8]);
    reveal_strlit("RESERVED ");
    reveal_strlit("RESERVED");
    is_ascii_chars_encode_utf8("RESERVED "@);
    is_ascii_chars_encode_utf8("RESERVED"@);
    assert("RESERVED ".spec_bytes() =~= "RESERVED".spec_bytes() + seq![32u8]);
    reveal_strlit("FOUND ");
    reveal_strlit("FOUND");
    is_ascii_chars_encode_utf8("FOUND "@);
    is_ascii_chars_encode_utf8("FOUND"@);
    assert("FOUND ".spec_bytes() =~= "FOUND".spec_bytes() + seq![32u8]);
    reveal_strlit("WATCHING ");
    reveal_strlit("WATCHING");
    is_ascii_chars_encode_utf8("WATCHING "@);
    is_ascii_chars_encode_utf8("WATCHING"@);
    assert("WATCHING ".spec_bytes() =~= "WATCHING".spec_bytes() + seq![32u8]);
    reveal_strlit("KICKED ");
    reveal_strlit("KICKED");
    is_ascii_chars_encode_utf8("KICKED "@);
    is_ascii_chars_encode_utf8("KICKED"@);
    assert("KICKED ".spec_bytes() =~= "KICKED".spec_bytes() + seq![32u8]);
    reveal_strlit("OK ");
    reveal_strlit("OK");
    is_ascii_chars_encode_utf8("OK "@);
    is_ascii_chars_encode_utf8("OK"@);
    assert("OK ".spec_bytes() =~= "OK".spec_bytes() + seq![32u8]);
    reveal_strlit(" ");
    is_ascii_chars_encode_utf8(" "@);
    assert(" ".spec_bytes() =~= seq![32u8]);
}

/// The line of a reply, without its `\r\n`.
pub open spec fn reply_line(r: ResponseView) -> Seq<u8> {
    wire(r).take(line_end(wire(r)) - 1)
}

/// What a line of two words is read as.
spec fn read_pair(a: Seq<u8>, b: Seq<u8>, line: Seq<u8>) -> ReplyView {
    let other = ReplyView::Other(lossy(line));
    if a == "USING".spec_bytes() {
        ReplyView::Using
    } else if a == "INSERTED".spec_bytes() {
        match plain_number(b, u64::MAX as nat) {
            Some(id) => ReplyView::Inserted(id as u64),
            None => other,
        }
    } else if a == "WATCHING".spec_bytes() {
        match plain_number(b, u32::MAX as nat) {
            Some(n) => ReplyView::Watching(n as u32),
            None => other,
        }
    } else if a == "OK".spec_bytes() {
        match plain_number(b, usize::MAX as nat) {
            Some(n) => ReplyView::OkBody(n as usize),
            None => other,
        }
    } else {
        other
    }
}

/// What a line of three words is read as.
spec fn read_triple(a: Seq<u8>, b: Seq<u8>, c: Seq<u8>, line: Seq<u8>) -> ReplyView {
    let other = ReplyView::Other(lossy(line));
    if a == "RESERVED".spec_bytes() {
        match (plain_number(b, u64::MAX as nat), plain_number(c, usize::MAX as nat)) {
            (Some(id), Some(n)) => ReplyView::Reserved { id: id as u64, body_len: n as usize },
            _ => other,
        }
    } else {
        other
    }
}

/// A reply that is one word.
proof fn lemma_plain(r: ResponseView, word: Seq<u8>)
    requires
        solid(word),
        wire(r) == word + crlf(),
    ensures
        line_end(wire(r)) < wire(r).len(),
        ends_line(wire(r).take(line_end(wire(r)) + 1)),
        reply_line(r) == word,
        wire(r).skip(line_end(wire(r)) + 1) == Seq::<u8>::empty(),
        reply_of(word) == if word == "DELETED".spec_bytes() {
            ReplyView::Deleted
        } else if word == "TIMED_OUT".spec_bytes() {
            ReplyView::TimedOut
        } else if word == "AUTHENTICATED".spec_bytes() {
            ReplyView::Authenticated
        } else {
            ReplyView::Other(lossy(word))
        },
{
    assert(wire(r) =~= word + crlf() + Seq::<u8>::empty());
    lemma_line(word, Seq::empty());
    lemma_one_word(word);
    let w = words(word);
    assert(w.len() == 1 && w[0] == word);
}

/// A reply of a word and another one.
proof fn lemma_pair(r: ResponseView, a: Seq<u8>, b: Seq<u8>, rest: Seq<u8>)
    requires
        solid(a),
        solid(b),
        wire(r) == a + seq![32u8] + b + crlf() + rest,
    ensures
        line_end(wire(r)) < wire(r).len(),
        ends_line(wire(r).take(line_end(wire(r)) + 1)),
        reply_line(r) == a + seq![32u8] + b,
        wire(r).skip(line_end(wire(r)) + 1) == rest,
        reply_of(reply_line(r)) == read_pair(a, b, reply_line(r)),
{
    let line = a + seq![32u8] + b;
    assert forall|i: int| 0 <= i < line.len() implies (#[trigger] line[i]) != 10 by {
        if i < a.len() {
            assert(line[i] == a[i]);
        } else if i > a.len() {
            assert(line[i] == b[i - a.len() - 1]);
        }
    }
    lemma_line(line, rest);
    lemma_more_words(a, b);
    lemma_one_word(b);
    let w = words(line);
    assert(w.len() == 2 && w[0] == a && w[1] == b);
}

/// A reply of a word and two numbers.
proof fn lemma_triple(r: ResponseView, a: Seq<u8>, b: Seq<u8>, c: Seq<u8>, rest: Seq<u8>)
    requires
        solid(a),
        solid(b),
        solid(c),
        wire(r) == a + seq![32u8] + b + seq![32u8] + c + crlf() + rest,
    ensures
        line_end(wire(r)) < wire(r).len(),
        ends_line(wire(r).take(line_end(wire(r)) + 1)),
        reply_line(r) == a + seq![32u8] + b + seq![32u8] + c,
        wire(r).skip(line_end(wire(r)) + 1) == rest,
        reply_of(reply_line(r)) == read_triple(a, b, c, reply_line(r)),
{
    let line = a + seq![32u8] + b + seq![32u8] + c;
    assert forall|i: int| 0 <= i < line.len() implies (#[trigger] line[i]) != 10 by {
        let k = a.len() + 1;
        if i < a.len() {
            assert(line[i] == a[i]);
        } else if a.len() < i < k + b.len() {
            assert(line[i] == b[i - k]);
        } else if i > k + b.len() {
            assert(line[i] == c[i - k - b.len() - 1]);
        }
    }
    lemma_line(line, rest);
    let tail = b + seq![32u8] + c;
    assert(line =~= a + seq![32u8] + tail);
    lemma_more_words(a, tail);
    lemma_more_words(b, c);
    lemma_one_word(c);
    let w = words(line);
    assert(w.len() == 3 && w[0] == a && w[1] == b && w[2] == c);
}

/// Whether a client reads what the server wrote: the line of a reply ends where
/// it should, it is read as the reply that it is, with the length of the body
/// that follows, and what follows is that body and a `\r\n`.
pub open spec fn read_back(r: ResponseView) -> bool {
    let s = wire(r);
    let n = line_end(s);
    let reply = reply_of(reply_line(r));
    &&& n < s.len()
    &&& ends_line(s.take(n + 1))
    &&& reply == read_as(r, reply_line(r))
    &&& s.skip(n + 1) == match sent_body(r) {
        Some(body) => body + crlf(),
        None => Seq::empty(),
    }
    &&& body_of(reply) is Some ==> sent_body(r) is Some && body_of(reply)->0 == (sent_body(
        r,
    )->0).len()
}

/// The replies of one word.
proof fn lemma_plain_read(r: ResponseView)
    requires
        wire_word(r) is Some,
    ensures
        read_back(r),
{
    lemma_words_alone();
    let word = wire_word(r)->0;
    assert(solid(word));
    assert(wire(r) == word + crlf());
    lemma_plain(r, word);
}

/// The word that a reply is, if it is but one.
spec fn wire_word(r: ResponseView) -> Option<Seq<u8>> {
    match r {
        ResponseView::Buried => Some("BURIED".spec_bytes()),
        ResponseView::KickedJob => Some("KICKED".spec_bytes()),
        ResponseView::DeadlineSoon => Some("DEADLINE_SOON".spec_bytes()),
        ResponseView::TimedOut => Some("TIMED_OUT".spec_bytes()),
        ResponseView::Deleted => Some("DELETED".spec_bytes()),
        ResponseView::Released => Some("RELEASED".spec_bytes()),
        ResponseView::Touched => Some("TOUCHED".spec_bytes()),
        ResponseView::NotFound => Some("NOT_FOUND".spec_bytes()),
        ResponseView::NotIgnored => Some("NOT_IGNORED".spec_bytes()),
        ResponseView::Paused => Some("PAUSED".spec_bytes()),
        ResponseView::ExpectedCrlf => Some("EXPECTED_CRLF".spec_bytes()),
        ResponseView::JobTooBig => Some("JOB_TOO_BIG".spec_bytes()),
        ResponseView::Draining => Some("DRAINING".spec_bytes()),
        ResponseView::OutOfMemory => Some("OUT_OF_MEMORY".spec_bytes()),
        ResponseView::InternalError => Some("INTERNAL_ERROR".spec_bytes()),
        ResponseView::BadFormat => Some("BAD_FORMAT".spec_bytes()),
        ResponseView::UnknownCommand => Some("UNKNOWN_COMMAND".spec_bytes()),
        ResponseView::Authenticated => Some("AUTHENTICATED".spec_bytes()),
        ResponseView::Unauthorized => Some("UNAUTHORIZED".spec_bytes()),
        _ => None,
    }
}

/// The replies of a word and a number.
proof fn lemma_counted_read(r: ResponseView, word: Seq<u8>, n: u64)
    requires
        readable(r),
        ({
            ||| r == ResponseView::Inserted(n) && word == "INSERTED".spec_bytes()
            ||| r == ResponseView::BuriedId(n) && word == "BURIED".spec_bytes()
            ||| r == ResponseView::Watching(n) && word == "WATCHING".spec_bytes()
            ||| r == ResponseView::Kicked(n) && word == "KICKED".spec_bytes()
        }),
    ensures
        read_back(r),
{
    lemma_words_alone();
    lemma_words_before();
    lemma_number(n as nat, u64::MAX as nat);
    if r is Watching {
        lemma_number(n as nat, u32::MAX as nat);
    }
    let d = decimal(n as nat);
    assert(wire(r) =~= word + seq![32u8] + d + crlf() + Seq::<u8>::empty());
    lemma_pair(r, word, d, Seq::empty());
}

/// The replies of a word, a number and a body.
proof fn lemma_body_read(r: ResponseView, word: Seq<u8>, id: u64, body: Seq<u8>)
    requires
        readable(r),
        ({
            ||| r == (ResponseView::Reserved { id, body }) && word == "RESERVED".spec_bytes()
            ||| r == (ResponseView::Found { id, body }) && word == "FOUND".spec_bytes()
        }),
    ensures
        read_back(r),
{
    lemma_words_alone();
    lemma_words_before();
    lemma_number(id as nat, u64::MAX as nat);
    lemma_number(body.len(), usize::MAX as nat);
    let b = decimal(id as nat);
    let c = decimal(body.len());
    let rest = body + crlf();
    assert(wire(r) =~= word + seq![32u8] + b + seq![32u8] + c + crlf() + rest);
    lemma_triple(r, word, b, c, rest);
}

/// A client reads what the server wrote, as far as its numbers and sizes fit.
pub proof fn server_reply_is_read(r: ResponseView)
    requires
        readable(r),
    ensures
        read_back(r),
{
    match r {
        ResponseView::Inserted(n) => lemma_counted_read(r, "INSERTED".spec_bytes(), n),
        ResponseView::BuriedId(n) => lemma_counted_read(r, "BURIED".spec_bytes(), n),
        ResponseView::Watching(n) => lemma_counted_read(r, "WATCHING".spec_bytes(), n),
        ResponseView::Kicked(n) => lemma_counted_read(r, "KICKED".spec_bytes(), n),
        ResponseView::Reserved { id, body } => lemma_body_read(
            r,
            "RESERVED".spec_bytes(),
            id,
            body,
        ),
        ResponseView::Found { id, body } => lemma_body_read(r, "FOUND".spec_bytes(), id, body),
        ResponseView::Using(tube) => {
            lemma_words_alone();
            lemma_words_before();
            let a = "USING".spec_bytes();
            assert forall|i: int| 0 <= i < tube.len() implies (#[trigger] tube[i]) != 32 && tube[i]
                != 10 by {
                assert(name_char(tube[i]));
            }
            assert(wire(r) =~= a + seq![32u8] + tube + crlf() + Seq::<u8>::empty());
            lemma_pair(r, a, tube, Seq::empty());
        },
        ResponseView::OkBody(body) => {
            lemma_words_alone();
            lemma_words_before();
            lemma_number(body.len(), usize::MAX as nat);
            let a = "OK".spec_bytes();
            let rest = body + crlf();
            assert(wire(r) =~= a + seq![32u8] + decimal(body.len()) + crlf() + rest);
            lemma_pair(r, a, decimal(body.len()), rest);
        },
        _ => lemma_plain_read(r),
    }
}

/// Whether the reply is a word and nothing else.
pub open spec fn is_a_word(r: ResponseView) -> bool {
    match r {
        ResponseView::Inserted(_) => false,
        ResponseView::BuriedId(_) => false,
        ResponseView::Using(_) => false,
        ResponseView::Reserved { .. } => false,
        ResponseView::Found { .. } => false,
        ResponseView::Watching(_) => false,
        ResponseView::Kicked(_) => false,
        ResponseView::OkBody(_) => false,
        _ => true,
    }
}

/// How long a reply that is a word is on the wire, and what it begins with.
spec fn look(r: ResponseView) -> (nat, u8) {
    match r {
        ResponseView::Buried => (8, 66),
        ResponseView::KickedJob => (8, 75),
        ResponseView::DeadlineSoon => (15, 68),
        ResponseView::TimedOut => (11, 84),
        ResponseView::Deleted => (9, 68),
        ResponseView::Released => (10, 82),
        ResponseView::Touched => (9, 84),
        ResponseView::NotFound => (11, 78),
        ResponseView::NotIgnored => (13, 78),
        ResponseView::Paused => (8, 80),
        ResponseView::ExpectedCrlf => (15, 69),
        ResponseView::JobTooBig => (13, 74),
        ResponseView::Draining => (10, 68),
        ResponseView::OutOfMemory => (15, 79),
        ResponseView::InternalError => (16, 73),
        ResponseView::BadFormat => (12, 66),
        ResponseView::UnknownCommand => (17, 85),
        ResponseView::Authenticated => (15, 65),
        ResponseView::Unauthorized => (14, 85),
        _ => (0, 0),
    }
}

/// A reply that is a word looks as it should.
proof fn lemma_look(r: ResponseView)
    requires
        is_a_word(r),
    ensures
        wire(r).len() == look(r).0,
        wire(r)[0] == look(r).1,
{
    match r {
        ResponseView::Buried => {
            reveal_strlit("BURIED");
            is_ascii_chars_encode_utf8("BURIED"@);
        },
        ResponseView::KickedJob => {
            reveal_strlit("KICKED");
            is_ascii_chars_encode_utf8("KICKED"@);
        },
        ResponseView::DeadlineSoon => {
            reveal_strlit("DEADLINE_SOON");
            is_ascii_chars_encode_utf8("DEADLINE_SOON"@);
        },
        ResponseView::TimedOut => {
            reveal_strlit("TIMED_OUT");
            is_ascii_chars_encode_utf8("TIMED_OUT"@);
        },
        ResponseView::Deleted => {
            reveal_strlit("DELETED");
            is_ascii_chars_encode_utf8("DELETED"@);
        },
        ResponseView::Released => {
            reveal_strlit("RELEASED");
            is_ascii_chars_encode_utf8("RELEASED"@);
        },
        ResponseView::Touched => {
            reveal_strlit("TOUCHED");
            is_ascii_chars_encode_utf8("TOUCHED"@);
        },
        ResponseView::NotFound => {
            reveal_strlit("NOT_FOUND");
            is_ascii_chars_encode_utf8("NOT_FOUND"@);
        },
        ResponseView::NotIgnored => {
            reveal_strlit("NOT_IGNORED");
            is_ascii_chars_encode_utf8("NOT_IGNORED"@);
        },
        ResponseView::Paused => {
            reveal_strlit("PAUSED");
            is_ascii_chars_encode_utf8("PAUSED"@);
        },
        ResponseView::ExpectedCrlf => {
            reveal_strlit("EXPECTED_CRLF");
            is_ascii_chars_encode_utf8("EXPECTED_CRLF"@);
        },
        ResponseView::JobTooBig => {
            reveal_strlit("JOB_TOO_BIG");
            is_ascii_chars_encode_utf8("JOB_TOO_BIG"@);
        },
        ResponseView::Draining => {
            reveal_strlit("DRAINING");
            is_ascii_chars_encode_utf8("DRAINING"@);
        },
        ResponseView::OutOfMemory => {
            reveal_strlit("OUT_OF_MEMORY");
            is_ascii_chars_encode_utf8("OUT_OF_MEMORY"@);
        },
        ResponseView::InternalError => {
            reveal_strlit("INTERNAL_ERROR");
            is_ascii_chars_encode_utf8("INTERNAL_ERROR"@);
        },
        ResponseView::BadFormat => {
            reveal_strlit("BAD_FORMAT");
            is_ascii_chars_encode_utf8("BAD_FORMAT"@);
        },
        ResponseView::UnknownCommand => {
            reveal_strlit("UNKNOWN_COMMAND");
            is_ascii_chars_encode_utf8("UNKNOWN_COMMAND"@);
        },
        ResponseView::Authenticated => {
            reveal_strlit("AUTHENTICATED");
            is_ascii_chars_encode_utf8("AUTHENTICATED"@);
        },
        ResponseView::Unauthorized => {
            reveal_strlit("UNAUTHORIZED");
            is_ascii_chars_encode_utf8("UNAUTHORIZED"@);
        },
        _ => {},
    }
}

/// No two replies that are words look alike on the wire.
pub proof fn words_are_told_apart(a: ResponseView, b: ResponseView)
    requires
        is_a_word(a),
        is_a_word(b),
        wire(a) == wire(b),
    ensures
        a == b,
{
    lemma_look(a);
    lemma_look(b);
}

} // verus!
