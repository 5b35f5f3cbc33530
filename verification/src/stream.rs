//! What holds of the codec over a whole stream: the frames that come out do not
//! depend on how the bytes arrived.

use crate::codec::{lemma_line_end, line_ends_at, line_scan, CodecView, LineScan, State};
use crate::proto::{FrameView, LINE_BUF_SIZE};
use vstd::prelude::*;

verus! {

impl CodecView {
    /// Every frame that the stream `s` holds: the codec after them, what is left
    /// of the stream, and the frames.
    pub open spec fn frames(self, s: Seq<u8>) -> (CodecView, Seq<u8>, Seq<FrameView>)
        decreases s.len(),
    {
        let (c, rest, frame) = self.decode(s);
        if frame is Some && rest.len() < s.len() {
            let (d, left, more) = c.frames(rest);
            (d, left, seq![frame->0] + more)
        } else {
            (c, rest, Seq::empty())
        }
    }

    /// Every frame that comes out as the chunks arrive one after the other: the
    /// codec after them, what is left of the stream, and the frames.
    pub open spec fn fed(self, chunks: Seq<Seq<u8>>) -> (CodecView, Seq<u8>, Seq<FrameView>)
        decreases chunks.len(),
    {
        if chunks.len() == 0 {
            (self, Seq::empty(), Seq::empty())
        } else {
            let (c, left, frames) = self.fed(chunks.drop_last());
            let (d, rest, more) = c.frames(left + chunks.last());
            (d, rest, frames + more)
        }
    }
}

/// The chunks in one piece.
pub open spec fn joined(chunks: Seq<Seq<u8>>) -> Seq<u8>
    decreases chunks.len(),
{
    if chunks.len() == 0 {
        Seq::empty()
    } else {
        joined(chunks.drop_last()) + chunks.last()
    }
}

/// What a look at the start of the stream found, it finds again when more has
/// arrived.
proof fn lemma_scan_extended(a: Seq<u8>, b: Seq<u8>)
    ensures
        !(line_scan(a) is Incomplete) ==> line_scan(a + b) == line_scan(a),
        line_scan(a) matches LineScan::Found(n) ==> line_ends_at(a, n as int),
        line_scan(a) is Overflow ==> a.len() >= LINE_BUF_SIZE,
{
    if exists|i: int| line_ends_at(a, i) {
        let i = choose|i: int| line_ends_at(a, i);
        lemma_line_end(a, i);
        assert(line_ends_at(a + b, i));
        lemma_line_end(a + b, i);
    } else if a.len() >= LINE_BUF_SIZE {
        if exists|i: int| line_ends_at(a + b, i) {
            let i = choose|i: int| line_ends_at(a + b, i);
            assert forall|k: int| 0 <= k < i implies a[k] != 13 by {
                assert((a + b)[k] == a[k]);
            }
            assert(line_ends_at(a, i));
        }
    }
}

/// A line leaves the codec well-formed.
proof fn lemma_line_taken(c: CodecView, line: Seq<u8>)
    requires
        c.wf(),
    ensures
        c.take_line(line).0.wf(),
{
    reveal(CodecView::take_line);
}

/// Every frame takes at least one byte off the stream, and no bytes are added
/// to it: reading frames off a stream comes to an end.
pub proof fn decoding_makes_progress(c: CodecView, s: Seq<u8>)
    requires
        c.wf(),
    ensures
        c.decode(s).0.wf(),
        c.decode(s).1.len() <= s.len(),
        c.decode(s).2 is Some ==> c.decode(s).1.len() < s.len(),
    decreases s.len(),
{
    lemma_scan_extended(s, Seq::empty());
    match c.state {
        State::Line { overflowed } => match line_scan(s) {
            LineScan::Incomplete => {},
            LineScan::Overflow => {
                decoding_makes_progress(
                    c.at(State::Line { overflowed: true }),
                    s.skip(LINE_BUF_SIZE as int),
                );
            },
            LineScan::Found(n) => {
                if !overflowed {
                    let (d, frame) = c.take_line(s.take(n as int));
                    lemma_line_taken(c, s.take(n as int));
                    if frame is None {
                        decoding_makes_progress(d, s.skip(n + 2));
                    }
                }
            },
        },
        State::PutBody { .. } => {},
        State::Discard { .. } => {},
    }
}

/// Once a frame is complete, what arrives behind it changes nothing; and while
/// none is, the codec takes in what has arrived and goes on from there.
pub proof fn decoding_goes_on(c: CodecView, a: Seq<u8>, b: Seq<u8>)
    requires
        c.wf(),
    ensures
        ({
            let (d, rest, frame) = c.decode(a);
            c.decode(a + b) == (if frame is Some {
                (d, rest + b, frame)
            } else {
                d.decode(rest + b)
            })
        }),
    decreases a.len(),
{
    lemma_scan_extended(a, b);
    match c.state {
        State::Line { overflowed } => match line_scan(a) {
            LineScan::Incomplete => {},
            LineScan::Overflow => {
                let d = c.at(State::Line { overflowed: true });
                decoding_goes_on(d, a.skip(LINE_BUF_SIZE as int), b);
                assert((a + b).skip(LINE_BUF_SIZE as int) =~= a.skip(LINE_BUF_SIZE as int) + b);
            },
            LineScan::Found(n) => {
                assert((a + b).skip(n + 2) =~= a.skip(n + 2) + b);
                assert((a + b).take(n as int) =~= a.take(n as int));
                if !overflowed {
                    let (d, frame) = c.take_line(a.take(n as int));
                    lemma_line_taken(c, a.take(n as int));
                    if frame is None {
                        decoding_goes_on(d, a.skip(n + 2), b);
                    }
                }
            },
        },
        State::PutBody { body_size, .. } => {
            let need = body_size + 2;
            if a.len() >= need {
                assert((a + b).skip(need) =~= a.skip(need) + b);
                assert((a + b).take(body_size as int) =~= a.take(body_size as int));
            }
        },
        State::Discard { remaining } => {
            if a.len() == 0 {
                assert(a + b =~= b);
            } else if a.len() < remaining {
                let d = c.at(State::Discard { remaining: (remaining - a.len()) as u64 });
                assert(Seq::<u8>::empty() + b =~= b);
                if a.len() + b.len() >= remaining {
                    assert((a + b).skip(remaining as int) =~= b.skip(remaining - a.len()));
                }
                if b.len() == 0 {
                    assert(a + b =~= a);
                }
            } else {
                assert((a + b).skip(remaining as int) =~= a.skip(remaining as int) + b);
            }
        },
    }
}

/// Reading a stream in two pieces gives the frames that reading it in one gives.
pub proof fn two_pieces_read_as_one(c: CodecView, a: Seq<u8>, b: Seq<u8>)
    requires
        c.wf(),
    ensures
        ({
            let (d, left, first) = c.frames(a);
            let (e, rest, second) = d.frames(left + b);
            c.frames(a + b) == (e, rest, first + second)
        }),
        c.frames(a).0.wf(),
    decreases a.len(),
{
    let (d, rest, frame) = c.decode(a);
    decoding_makes_progress(c, a);
    decoding_goes_on(c, a, b);
    if frame is Some {
        two_pieces_read_as_one(d, rest, b);
        let (e, left, more) = d.frames(rest);
        let (f, end, last) = e.frames(left + b);
        assert(seq![frame->0] + (more + last) =~= (seq![frame->0] + more) + last);
    } else {
        decoding_makes_progress(d, rest + b);
        let (e, end, more) = d.frames(rest + b);
        assert(Seq::<FrameView>::empty() + more =~= more);
    }
}

/// However a stream is cut up, byte by byte or not at all, the same frames come
/// out of it, the codec ends up the same, and the same is left.
pub proof fn chunking_is_invisible(c: CodecView, chunks: Seq<Seq<u8>>)
    requires
        c.wf(),
    ensures
        c.fed(chunks) == c.frames(joined(chunks)),
        c.fed(chunks).0.wf(),
    decreases chunks.len(),
{
    if chunks.len() == 0 {
        lemma_scan_extended(Seq::empty(), Seq::empty());
    } else {
        let front = chunks.drop_last();
        chunking_is_invisible(c, front);
        two_pieces_read_as_one(c, joined(front), chunks.last());
        let (d, left, _) = c.fed(front);
        two_pieces_read_as_one(d, left + chunks.last(), Seq::empty());
    }
}

} // verus!
