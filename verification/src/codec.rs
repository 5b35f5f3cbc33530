//! Cutting a byte stream into frames: command lines, bodies of puts, lines that
//! are too long and bodies that are too big.

use crate::buf::{
    buffer_advance, buffer_freeze, buffer_reserve, buffer_slice, buffer_split_to, buffered,
    bytes_copy, bytes_of, bytes_prefix, bytes_slice,
};
use crate::parse::{parse_line_raw, parsed, ParsedLine, ParsedView, PutHeader};
use crate::proto::{
    Command, CommandView, Frame, FrameView, PutRejection, Response, ResponseView, LINE_BUF_SIZE,
};
use crate::response::wire;
use crate::scan::{begins, begins_with, front_of, rest_of};
use bytes::{Bytes, BytesMut};
use vstd::prelude::*;
use vstd::string::StringSliceAdditionalSpecFns;

verus! {

/// Where the codec is in the stream.
#[derive(Debug, Clone, Copy, PartialEq, Eq, Structural)]
pub enum State {
    /// At a line. `overflowed` tells whether what was read of it so far was
    /// too long and has been dropped.
    Line { overflowed: bool },
    /// At the body of a put, which is followed by `\r\n`.
    PutBody { pri: u32, delay: u32, ttr: u32, body_size: u32 },
    /// Dropping what is left of a body that is too big, and its `\r\n`.
    Discard { remaining: u64 },
}

/// Cuts what a client sends into frames, and puts replies into bytes.
#[derive(Debug)]
pub struct ServerCodec {
    max_job_size: u32,
    state: State,
    emit_put_started: bool,
    recognize_auth: bool,
}

/// What a codec is set to, and where it is in the stream.
pub struct CodecView {
    pub max_job_size: u32,
    pub state: State,
    pub emit_put_started: bool,
    pub recognize_auth: bool,
}

impl View for ServerCodec {
    type V = CodecView;

    closed spec fn view(&self) -> CodecView {
        CodecView {
            max_job_size: self.max_job_size,
            state: self.state,
            emit_put_started: self.emit_put_started,
            recognize_auth: self.recognize_auth,
        }
    }
}

/// What a look at the start of the stream finds.
#[derive(Debug, Clone, Copy, PartialEq, Eq, Structural)]
pub enum LineScan {
    /// A line of this length, before its `\r\n`.
    Found(usize),
    /// No line yet.
    Incomplete,
    /// No line within the longest that there may be.
    Overflow,
}

/// Whether the first `\r` of `s` stands at `i`, with `\n` behind it, within the
/// longest line that there may be. A `\r` with anything else behind it hides
/// whatever follows.
pub open spec fn line_ends_at(s: Seq<u8>, i: int) -> bool {
    &&& 0 <= i
    &&& i + 1 < s.len()
    &&& i + 1 < LINE_BUF_SIZE
    &&& s[i] == 13
    &&& s[i + 1] == 10
    &&& forall|k: int| 0 <= k < i ==> s[k] != 13
}

/// What a look at the start of `s` finds.
pub open spec fn line_scan(s: Seq<u8>) -> LineScan {
    if exists|i: int| line_ends_at(s, i) {
        LineScan::Found((choose|i: int| line_ends_at(s, i)) as usize)
    } else if s.len() >= LINE_BUF_SIZE {
        LineScan::Overflow
    } else {
        LineScan::Incomplete
    }
}

/// A line ends in one place.
pub proof fn lemma_line_end(s: Seq<u8>, i: int)
    requires
        line_ends_at(s, i),
    ensures
        line_scan(s) == LineScan::Found(i as usize),
{
    let j = choose|j: int| line_ends_at(s, j);
    assert(line_ends_at(s, j));
    assert(i == j) by {
        if i < j {
            assert(s[i] != 13);
        } else if j < i {
            assert(s[j] != 13);
        }
    }
}

impl CodecView {
    /// In state `s`.
    pub open spec fn at(self, s: State) -> CodecView {
        CodecView { state: s, ..self }
    }

    /// At the start of a line.
    pub open spec fn ready(self) -> CodecView {
        self.at(State::Line { overflowed: false })
    }

    /// What a complete line amounts to: the new codec, and the frame, if there is
    /// one already.
    #[verifier::opaque]
    pub open spec fn take_line(self, line: Seq<u8>) -> (CodecView, Option<FrameView>) {
        if self.recognize_auth && begins(line, "auth ".spec_bytes()) {
            (
                self.ready(),
                Some(FrameView::Auth(line.skip("auth ".spec_bytes().len() as int))),
            )
        } else {
            match parsed(line) {
                Err(r) => (self.ready(), Some(FrameView::Error(r))),
                Ok(ParsedView::Command(c)) => (self.ready(), Some(FrameView::Command(c))),
                Ok(ParsedView::Put(h)) => self.take_put(h),
            }
        }
    }

    /// What comes out for a put that is rejected: a codec that announces puts
    /// tells the engine, which counts the put and replies; any other replies
    /// itself.
    pub open spec fn rejection(self, why: PutRejection) -> FrameView {
        if self.emit_put_started {
            FrameView::PutRejected(why)
        } else {
            FrameView::Error(why.reply())
        }
    }

    /// What a put line amounts to.
    pub open spec fn take_put(self, h: PutHeader) -> (CodecView, Option<FrameView>) {
        if h.body_size > self.max_job_size {
            (
                self.at(State::Discard { remaining: (h.body_size + 2) as u64 }),
                if self.emit_put_started {
                    Some(FrameView::PutStarted { too_big: true })
                } else {
                    None
                },
            )
        } else if h.trailing_garbage {
            (self.ready(), Some(self.rejection(PutRejection::TrailingGarbage)))
        } else {
            (
                self.at(
                    State::PutBody {
                        pri: h.pri,
                        delay: h.delay,
                        ttr: h.ttr,
                        body_size: h.body_size,
                    },
                ),
                if self.emit_put_started {
                    Some(FrameView::PutStarted { too_big: false })
                } else {
                    None
                },
            )
        }
    }

    /// What the codec makes of the stream `s`: the new codec, what is left of
    /// the stream, and the first frame, if it is complete.
    pub open spec fn decode(self, s: Seq<u8>) -> (CodecView, Seq<u8>, Option<FrameView>)
        decreases s.len(),
    {
        match self.state {
            State::Line { overflowed } => match line_scan(s) {
                LineScan::Incomplete => (self, s, None),
                LineScan::Overflow => self.at(State::Line { overflowed: true }).decode(
                    s.skip(LINE_BUF_SIZE as int),
                ),
                LineScan::Found(n) => {
                    let rest = s.skip(n + 2);
                    if overflowed {
                        (self.ready(), rest, Some(FrameView::Error(ResponseView::BadFormat)))
                    } else {
                        let (c, frame) = self.take_line(s.take(n as int));
                        if frame is Some {
                            (c, rest, frame)
                        } else {
                            c.decode(rest)
                        }
                    }
                },
            },
            State::PutBody { pri, delay, ttr, body_size } => {
                let need = body_size + 2;
                if s.len() < need {
                    (self, s, None)
                } else if s[body_size as int] == 13 && s[body_size + 1] == 10 {
                    (
                        self.ready(),
                        s.skip(need),
                        Some(
                            FrameView::Command(
                                CommandView::Put {
                                    pri,
                                    delay,
                                    ttr,
                                    body: s.take(body_size as int),
                                },
                            ),
                        ),
                    )
                } else {
                    (
                        self.ready(),
                        s.skip(need),
                        Some(self.rejection(PutRejection::ExpectedCrlf)),
                    )
                }
            },
            State::Discard { remaining } => {
                if s.len() == 0 {
                    (self, s, None)
                } else if s.len() < remaining {
                    (
                        self.at(State::Discard { remaining: (remaining - s.len()) as u64 }),
                        Seq::empty(),
                        None,
                    )
                } else {
                    (
                        self.ready(),
                        s.skip(remaining as int),
                        Some(self.rejection(PutRejection::JobTooBig)),
                    )
                }
            },
        }
    }

    /// What holds of a codec: a body that it reads is within its limit, which an
    /// allocation can hold, and there is something left of one that it drops.
    pub open spec fn wf(self) -> bool {
        &&& self.max_job_size + 2 <= isize::MAX
        &&& match self.state {
            State::Line { .. } => true,
            State::PutBody { body_size, .. } => body_size <= self.max_job_size,
            State::Discard { remaining } => remaining >= 1,
        }
    }
}

/// Looks for a line at the start of the stream.
fn scan_line_end(s: &[u8]) -> (r: LineScan)
    ensures
        r == line_scan(s@),
        r matches LineScan::Found(n) ==> n + 2 <= s@.len(),
{
    let len: usize = s.len();
    let window: usize = if len < LINE_BUF_SIZE {
        len
    } else {
        LINE_BUF_SIZE
    };
    let mut i: usize = 0;
    while i + 1 < window
        invariant
            len == s@.len(),
            i <= window <= s@.len(),
            window == (if s@.len() < LINE_BUF_SIZE {
                s@.len() as int
            } else {
                LINE_BUF_SIZE as int
            }),
            forall|k: int| 0 <= k < i ==> s@[k] != 13,
        decreases window - i,
    {
        if s[i] == 13 {
            if s[i + 1] == 10 {
                proof {
                    lemma_line_end(s@, i as int);
                }
                return LineScan::Found(i);
            }
            proof {
                assert forall|k: int| !line_ends_at(s@, k) by {
                    if line_ends_at(s@, k) && k > i {
                        assert(s@[i as int] != 13);
                    }
                }
            }
            return if len >= LINE_BUF_SIZE {
                LineScan::Overflow
            } else {
                LineScan::Incomplete
            };
        }
        i = i + 1;
    }
    proof {
        assert forall|k: int| !line_ends_at(s@, k) by {
            if line_ends_at(s@, k) {
                assert(k < i);
            }
        }
    }
    if len >= LINE_BUF_SIZE {
        LineScan::Overflow
    } else {
        LineScan::Incomplete
    }
}

impl ServerCodec {
    /// A codec at the start of a stream, with the given limit on the size of a
    /// body. It emits no `PutStarted`, and `auth` is an unknown command to it.
    pub fn new(max_job_size: u32) -> (r: Self)
        requires
            max_job_size + 2 <= isize::MAX,
        ensures
            r@ == (CodecView {
                max_job_size,
                state: State::Line { overflowed: false },
                emit_put_started: false,
                recognize_auth: false,
            }),
            r@.wf(),
    {
        ServerCodec {
            max_job_size,
            state: State::Line { overflowed: false },
            emit_put_started: false,
            recognize_auth: false,
        }
    }

    /// With `auth <token>` lines as frames of their own.
    pub fn recognize_auth(self) -> (r: Self)
        ensures
            r@ == (CodecView { recognize_auth: true, ..self@ }),
    {
        ServerCodec { recognize_auth: true, ..self }
    }

    /// With a `PutStarted` frame as soon as a put line is accepted, before its
    /// body is read, and with `PutRejected` for a put that is rejected.
    pub fn emit_put_started(self) -> (r: Self)
        ensures
            r@ == (CodecView { emit_put_started: true, ..self@ }),
    {
        ServerCodec { emit_put_started: true, ..self }
    }

    /// What comes out for a put that is rejected.
    fn rejected(&self, why: PutRejection) -> (r: Frame)
        ensures
            r@ == self@.rejection(why),
    {
        if self.emit_put_started {
            Frame::PutRejected(why)
        } else {
            Frame::Error(why.response())
        }
    }

    /// Takes in a complete line.
    fn take_line(&mut self, line: &[u8]) -> (r: Option<Frame>)
        requires
            old(self)@.wf(),
        ensures
            final(self)@ == old(self)@.take_line(line@).0,
            match r {
                Some(f) => old(self)@.take_line(line@).1 == Some(f@),
                None => old(self)@.take_line(line@).1 is None,
            },
            final(self)@.wf(),
    {
        proof {
            reveal(CodecView::take_line);
        }
        self.state = State::Line { overflowed: false };
        let auth = "auth ".as_bytes();
        if self.recognize_auth && begins_with(line, auth) {
            return Some(Frame::Auth(bytes_copy(rest_of(line, auth.len()))));
        }
        match parse_line_raw(line) {
            Err(r) => Some(Frame::Error(r)),
            Ok(ParsedLine::Command(c)) => Some(Frame::Command(c)),
            Ok(ParsedLine::Put(h)) => {
                if h.body_size > self.max_job_size {
                    self.state = State::Discard { remaining: h.body_size as u64 + 2 };
                    if self.emit_put_started {
                        Some(Frame::PutStarted { too_big: true })
                    } else {
                        None
                    }
                } else if h.trailing_garbage {
                    Some(self.rejected(PutRejection::TrailingGarbage))
                } else {
                    self.state =
                    State::PutBody {
                        pri: h.pri,
                        delay: h.delay,
                        ttr: h.ttr,
                        body_size: h.body_size,
                    };
                    if self.emit_put_started {
                        Some(Frame::PutStarted { too_big: false })
                    } else {
                        None
                    }
                }
            },
        }
    }

    /// Takes the next frame off the stream, if it is complete.
    pub fn decode(&mut self, src: &mut BytesMut) -> (r: Option<Frame>)
        requires
            old(self)@.wf(),
        ensures
            final(self)@.wf(),
            ({
                let (c, rest, frame) = old(self)@.decode(buffered(*old(src)));
                &&& final(self)@ == c
                &&& buffered(*final(src)) == rest
                &&& match r {
                    Some(f) => frame == Some(f@),
                    None => frame is None,
                }
            }),
    {
        let ghost goal = self@.decode(buffered(*src));
        loop
            invariant
                self@.wf(),
                self@.decode(buffered(*src)) == goal,
                old(self)@.decode(buffered(*old(src))) == goal,
            decreases buffered(*src).len(),
        {
            match self.state {
                State::Line { overflowed } => match scan_line_end(buffer_slice(src)) {
                    LineScan::Incomplete => {
                        return None;
                    },
                    LineScan::Overflow => {
                        buffer_advance(src, LINE_BUF_SIZE);
                        self.state = State::Line { overflowed: true };
                    },
                    LineScan::Found(n) => {
                        let ghost s = buffered(*src);
                        let whole = buffer_split_to(src, n + 2);
                        if overflowed {
                            self.state = State::Line { overflowed: false };
                            return Some(Frame::Error(Response::BadFormat));
                        }
                        let line = front_of(buffer_slice(&whole), n);
                        assert(line@ =~= s.take(n as int));
                        let frame = self.take_line(line);
                        if frame.is_some() {
                            return frame;
                        }
                    },
                },
                State::PutBody { pri, delay, ttr, body_size } => {
                    let need: usize = body_size as usize + 2;
                    let len: usize = buffer_slice(src).len();
                    if len < need {
                        let extra: usize = if need - len < 65536 {
                            need - len
                        } else {
                            65536
                        };
                        buffer_reserve(src, extra);
                        return None;
                    }
                    let ghost s = buffered(*src);
                    let whole: Bytes = buffer_freeze(buffer_split_to(src, need));
                    self.state = State::Line { overflowed: false };
                    let all = bytes_slice(&whole);
                    if all[need - 2] != 13 || all[need - 1] != 10 {
                        return Some(self.rejected(PutRejection::ExpectedCrlf));
                    }
                    let body: Bytes = bytes_prefix(&whole, need - 2);
                    assert(bytes_of(body) =~= s.take(body_size as int));
                    return Some(Frame::Command(Command::Put { pri, delay, ttr, body }));
                },
                State::Discard { remaining } => {
                    let len: usize = buffer_slice(src).len();
                    if len == 0 {
                        return None;
                    }
                    if (len as u64) < remaining {
                        let ghost s = buffered(*src);
                        buffer_advance(src, len);
                        assert(buffered(*src) =~= Seq::<u8>::empty());
                        self.state = State::Discard { remaining: remaining - len as u64 };
                        return None;
                    }
                    buffer_advance(src, remaining as usize);
                    self.state = State::Line { overflowed: false };
                    return Some(self.rejected(PutRejection::JobTooBig));
                },
            }
        }
    }

    /// Appends the wire form of a reply.
    pub fn encode(&mut self, item: Response, dst: &mut BytesMut)
        requires
            buffered(*old(dst)).len() + wire(item@).len() <= isize::MAX,
        ensures
            final(self)@ == old(self)@,
            buffered(*final(dst)) == buffered(*old(dst)) + wire(item@),
    {
        item.encode(dst);
    }
}

} // verus!
