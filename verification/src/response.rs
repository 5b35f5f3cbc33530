//! The wire form of replies.

use crate::buf::{buffer_extend, buffered, bytes_slice};
use crate::proto::{Response, ResponseView};
use crate::text::{decimal, push_bytes, push_decimal, push_str};
use bytes::BytesMut;
use vstd::prelude::*;
use vstd::string::StringSliceAdditionalSpecFns;

verus! {

/// `\r\n`
pub open spec fn crlf() -> Seq<u8> {
    seq![13u8, 10u8]
}

/// A word and a number on a line.
pub open spec fn counted_line(word: Seq<u8>, n: u64) -> Seq<u8> {
    word + decimal(n as nat) + crlf()
}

/// A line that ends in the size of `body`, then the body, then `\r\n`.
pub open spec fn with_body(head: Seq<u8>, body: Seq<u8>) -> Seq<u8> {
    head + decimal(body.len()) + crlf() + body + crlf()
}

/// The bytes that a reply is sent as.
pub open spec fn wire(r: ResponseView) -> Seq<u8> {
    match r {
        ResponseView::Inserted(id) => counted_line("INSERTED ".spec_bytes(), id),
        ResponseView::BuriedId(id) => counted_line("BURIED ".spec_bytes(), id),
        ResponseView::Buried => "BURIED".spec_bytes() + crlf(),
        ResponseView::Using(tube) => "USING ".spec_bytes() + tube + crlf(),
        ResponseView::Reserved { id, body } => with_body(
            "RESERVED ".spec_bytes() + decimal(id as nat) + " ".spec_bytes(),
            body,
        ),
        ResponseView::Found { id, body } => with_body(
            "FOUND ".spec_bytes() + decimal(id as nat) + " ".spec_bytes(),
            body,
        ),
        ResponseView::Watching(n) => counted_line("WATCHING ".spec_bytes(), n),
        ResponseView::Kicked(n) => counted_line("KICKED ".spec_bytes(), n),
        ResponseView::KickedJob => "KICKED".spec_bytes() + crlf(),
        ResponseView::OkBody(body) => with_body("OK ".spec_bytes(), body),
        ResponseView::DeadlineSoon => "DEADLINE_SOON".spec_bytes() + crlf(),
        ResponseView::TimedOut => "TIMED_OUT".spec_bytes() + crlf(),
        ResponseView::Deleted => "DELETED".spec_bytes() + crlf(),
        ResponseView::Released => "RELEASED".spec_bytes() + crlf(),
        ResponseView::Touched => "TOUCHED".spec_bytes() + crlf(),
        ResponseView::NotFound => "NOT_FOUND".spec_bytes() + crlf(),
        ResponseView::NotIgnored => "NOT_IGNORED".spec_bytes() + crlf(),
        ResponseView::Paused => "PAUSED".spec_bytes() + crlf(),
        ResponseView::ExpectedCrlf => "EXPECTED_CRLF".spec_bytes() + crlf(),
        ResponseView::JobTooBig => "JOB_TOO_BIG".spec_bytes() + crlf(),
        ResponseView::Draining => "DRAINING".spec_bytes() + crlf(),
        ResponseView::OutOfMemory => "OUT_OF_MEMORY".spec_bytes() + crlf(),
        ResponseView::InternalError => "INTERNAL_ERROR".spec_bytes() + crlf(),
        ResponseView::BadFormat => "BAD_FORMAT".spec_bytes() + crlf(),
        ResponseView::UnknownCommand => "UNKNOWN_COMMAND".spec_bytes() + crlf(),
        ResponseView::Authenticated => "AUTHENTICATED".spec_bytes() + crlf(),
        ResponseView::Unauthorized => "UNAUTHORIZED".spec_bytes() + crlf(),
    }
}

/// Appends `\r\n`.
pub(crate) fn push_crlf(out: &mut Vec<u8>)
    ensures
        final(out)@ == old(out)@ + crlf(),
{
    out.push(13);
    out.push(10);
    assert(out@ =~= old(out)@ + crlf());
}

/// A line that is the same every time.
fn plain(word: &str) -> (r: Vec<u8>)
    ensures
        r@ == word.spec_bytes() + crlf(),
{
    let mut r: Vec<u8> = Vec::new();
    push_str(&mut r, word);
    push_crlf(&mut r);
    assert(r@ =~= word.spec_bytes() + crlf());
    r
}

/// A word and a number on a line.
fn counted(word: &str, n: u64) -> (r: Vec<u8>)
    ensures
        r@ == counted_line(word.spec_bytes(), n),
{
    let mut r: Vec<u8> = Vec::new();
    push_str(&mut r, word);
    push_decimal(&mut r, n);
    push_crlf(&mut r);
    assert(r@ =~= counted_line(word.spec_bytes(), n));
    r
}

/// A word, a number if one is given, the size of the body, and the body.
fn bodied(word: &str, id: Option<u64>, body: &[u8]) -> (r: Vec<u8>)
    ensures
        r@ == with_body(
            match id {
                Some(id) => word.spec_bytes() + decimal(id as nat) + " ".spec_bytes(),
                None => word.spec_bytes(),
            },
            body@,
        ),
{
    let ghost head = match id {
        Some(id) => word.spec_bytes() + decimal(id as nat) + " ".spec_bytes(),
        None => word.spec_bytes(),
    };
    let mut r: Vec<u8> = Vec::new();
    push_str(&mut r, word);
    if let Some(id) = id {
        push_decimal(&mut r, id);
        push_str(&mut r, " ");
    }
    assert(r@ =~= head);
    push_decimal(&mut r, body.len() as u64);
    push_crlf(&mut r);
    push_bytes(&mut r, body);
    push_crlf(&mut r);
    r
}

impl Response {
    /// The bytes that the reply is sent as.
    fn to_wire(&self) -> (r: Vec<u8>)
        ensures
            r@ == wire(self@),
    {
        match self {
            Response::Inserted(id) => counted("INSERTED ", *id),
            Response::BuriedId(id) => counted("BURIED ", *id),
            Response::Buried => plain("BURIED"),
            Response::Using(tube) => {
                let mut r: Vec<u8> = Vec::new();
                push_str(&mut r, "USING ");
                push_bytes(&mut r, tube.as_str().as_bytes());
                push_crlf(&mut r);
                assert(r@ =~= "USING ".spec_bytes() + tube@ + crlf());
                r
            },
            Response::Reserved { id, body } => bodied("RESERVED ", Some(*id), bytes_slice(body)),
            Response::Found { id, body } => bodied("FOUND ", Some(*id), bytes_slice(body)),
            Response::Watching(n) => counted("WATCHING ", *n),
            Response::Kicked(n) => counted("KICKED ", *n),
            Response::KickedJob => plain("KICKED"),
            Response::OkBody(body) => bodied("OK ", None, bytes_slice(body)),
            Response::DeadlineSoon => plain("DEADLINE_SOON"),
            Response::TimedOut => plain("TIMED_OUT"),
            Response::Deleted => plain("DELETED"),
            Response::Released => plain("RELEASED"),
            Response::Touched => plain("TOUCHED"),
            Response::NotFound => plain("NOT_FOUND"),
            Response::NotIgnored => plain("NOT_IGNORED"),
            Response::Paused => plain("PAUSED"),
            Response::ExpectedCrlf => plain("EXPECTED_CRLF"),
            Response::JobTooBig => plain("JOB_TOO_BIG"),
            Response::Draining => plain("DRAINING"),
            Response::OutOfMemory => plain("OUT_OF_MEMORY"),
            Response::InternalError => plain("INTERNAL_ERROR"),
            Response::BadFormat => plain("BAD_FORMAT"),
            Response::UnknownCommand => plain("UNKNOWN_COMMAND"),
            Response::Authenticated => plain("AUTHENTICATED"),
            Response::Unauthorized => plain("UNAUTHORIZED"),
        }
    }

    /// Appends the wire form of the reply.
    pub fn encode(&self, dst: &mut BytesMut)
        requires
            buffered(*old(dst)).len() + wire(self@).len() <= isize::MAX,
        ensures
            buffered(*final(dst)) == buffered(*old(dst)) + wire(self@),
    {
        buffer_extend(dst, self.to_wire().as_slice());
    }
}

} // verus!
