//! What announcing puts adds to a stream of frames: each put line that opens a
//! body is announced, the next frame tells how that body ended, and everything
//! else is as it would be unannounced.

use crate::codec::{line_scan, CodecView, LineScan, State};
use crate::parse::{parsed, ParsedView};
use crate::proto::{FrameView, PutRejection, LINE_BUF_SIZE};
use crate::scan::begins;
use crate::stream::decoding_makes_progress;
use vstd::prelude::*;
use vstd::string::StringSliceAdditionalSpecFns;

verus! {

/// The codec, announcing nothing.
pub open spec fn quieted(c: CodecView) -> CodecView {
    CodecView { emit_put_started: false, ..c }
}

/// What a codec that announces nothing gives in the place of a frame.
pub open spec fn unannounced(f: FrameView) -> FrameView {
    match f {
        FrameView::PutRejected(why) => FrameView::Error(why.reply()),
        _ => f,
    }
}

/// What a codec that announces nothing gives in the place of frames: no
/// announcements, and rejections as errors.
pub open spec fn all_unannounced(fs: Seq<FrameView>) -> Seq<FrameView>
    decreases fs.len(),
{
    if fs.len() == 0 {
        Seq::empty()
    } else if fs[0] is PutStarted {
        all_unannounced(fs.drop_first())
    } else {
        seq![unannounced(fs[0])] + all_unannounced(fs.drop_first())
    }
}

/// Whether a frame is a put, or rejects one for what followed its line.
pub open spec fn settles(f: FrameView) -> bool {
    ||| f == FrameView::PutRejected(PutRejection::JobTooBig)
    ||| f == FrameView::PutRejected(PutRejection::ExpectedCrlf)
    ||| f matches FrameView::Command(cmd) && cmd is Put
}

/// Whether frame `b` may come right after frame `a`: an announced put is settled
/// at once, and nothing is settled that was not announced.
pub open spec fn may_follow(a: FrameView, b: FrameView) -> bool {
    match a {
        FrameView::PutStarted { too_big: true } => b == FrameView::PutRejected(
            PutRejection::JobTooBig,
        ),
        FrameView::PutStarted { too_big: false } => b == FrameView::PutRejected(
            PutRejection::ExpectedCrlf,
        ) || (b matches FrameView::Command(cmd) && cmd is Put),
        _ => !settles(b),
    }
}

/// Whether a codec in state `s` may give frame `f` next.
spec fn may_come(s: State, f: FrameView) -> bool {
    match s {
        State::Line { .. } => !settles(f),
        State::PutBody { .. } => f == FrameView::PutRejected(PutRejection::ExpectedCrlf) || (
        f matches FrameView::Command(cmd) && cmd is Put),
        State::Discard { .. } => f == FrameView::PutRejected(PutRejection::JobTooBig),
    }
}

/// Whether frame `f` may leave the codec in state `s`.
spec fn may_leave(f: FrameView, s: State) -> bool {
    match f {
        FrameView::PutStarted { too_big: true } => s is Discard,
        FrameView::PutStarted { too_big: false } => s is PutBody,
        _ => s is Line,
    }
}

/// No line is a put by itself: its body follows.
proof fn lemma_no_put(line: Seq<u8>)
    ensures
        parsed(line) matches Ok(ParsedView::Command(cmd)) ==> !(cmd is Put),
{
}

/// Of two codecs that differ in whether they announce puts, where one gives an
/// announcement the other goes on, and else both give the same.
proof fn lemma_alongside(c: CodecView, s: Seq<u8>)
    requires
        c.wf(),
        c.emit_put_started,
    ensures
        ({
            let (d, rest, f) = c.decode(s);
            &&& d.emit_put_started
            &&& f is Some ==> may_come(c.state, f->0) && may_leave(f->0, d.state)
            &&& quieted(c).decode(s) == (if f is Some && f->0 is PutStarted {
                quieted(d).decode(rest)
            } else if f is Some {
                (quieted(d), rest, Some(unannounced(f->0)))
            } else {
                (quieted(d), rest, None)
            })
        }),
    decreases s.len(),
{
    reveal(CodecView::take_line);
    match c.state {
        State::Line { overflowed } => match line_scan(s) {
            LineScan::Found(n) => {
                lemma_no_put(s.take(n as int));
            },
            LineScan::Overflow => {
                lemma_alongside(
                    c.at(State::Line { overflowed: true }),
                    s.skip(LINE_BUF_SIZE as int),
                );
                assert(quieted(c.at(State::Line { overflowed: true })) == quieted(c).at(
                    State::Line { overflowed: true },
                ));
            },
            _ => {},
        },
        _ => {},
    }
}

/// A codec that announces puts gives, announcements left out and rejections
/// turned into errors, the frames of one that does not; it stops at the same
/// place of the stream and in the same state.
pub proof fn announcing_adds_only_announcements(c: CodecView, s: Seq<u8>)
    requires
        c.wf(),
        c.emit_put_started,
    ensures
        ({
            let (d, left, fs) = c.frames(s);
            quieted(c).frames(s) == (quieted(d), left, all_unannounced(fs))
        }),
    decreases s.len(),
{
    let (d, rest, f) = c.decode(s);
    lemma_alongside(c, s);
    decoding_makes_progress(c, s);
    if f is Some {
        announcing_adds_only_announcements(d, rest);
        let (e, left, more) = d.frames(rest);
        let fs = seq![f->0] + more;
        assert(fs.drop_first() =~= more);
        decoding_makes_progress(quieted(d), rest);
        decoding_makes_progress(quieted(c), s);
    }
}

/// With puts announced, the frame after an announcement tells how that put
/// ended: too big, as announced, or else the put itself or that its body was not
/// followed by a line end. None of these comes unannounced.
pub proof fn announced_puts_are_settled(c: CodecView, s: Seq<u8>)
    requires
        c.wf(),
        c.emit_put_started,
        c.state is Line,
    ensures
        ({
            let fs = c.frames(s).2;
            &&& fs.len() > 0 ==> !settles(fs[0])
            &&& forall|i: int|
                #![trigger fs[i]]
                0 <= i && i + 1 < fs.len() ==> may_follow(fs[i], fs[i + 1])
        }),
{
    lemma_settled(c, s);
}

/// As above, from any state.
proof fn lemma_settled(c: CodecView, s: Seq<u8>)
    requires
        c.wf(),
        c.emit_put_started,
    ensures
        ({
            let fs = c.frames(s).2;
            &&& fs.len() > 0 ==> may_come(c.state, fs[0])
            &&& forall|i: int|
                #![trigger fs[i]]
                0 <= i && i + 1 < fs.len() ==> may_follow(fs[i], fs[i + 1])
        }),
    decreases s.len(),
{
    let (d, rest, f) = c.decode(s);
    lemma_alongside(c, s);
    decoding_makes_progress(c, s);
    if f is Some {
        lemma_settled(d, rest);
        let more = d.frames(rest).2;
        let fs = seq![f->0] + more;
        assert forall|i: int| #![trigger fs[i]] 0 <= i && i + 1 < fs.len() implies may_follow(
            fs[i],
            fs[i + 1],
        ) by {
            if i > 0 {
                assert(fs[i] == more[i - 1]);
                assert(fs[i + 1] == more[i]);
                assert(may_follow(more[i - 1], more[i]));
            } else {
                assert(fs[1] == more[0]);
            }
        }
    }
}

/// A put line is announced exactly if it opens a body, that is unless something
/// stands behind its numbers and the body would not be too big anyway; the
/// announcement says whether the body is too big. No other line is announced.
pub proof fn put_lines_are_announced(c: CodecView, line: Seq<u8>)
    requires
        c.emit_put_started,
        !(c.recognize_auth && begins(line, "auth ".spec_bytes())),
    ensures
        match parsed(line) {
            Ok(ParsedView::Put(h)) => c.take_line(line).1 == Some(
                if h.body_size > c.max_job_size {
                    FrameView::PutStarted { too_big: true }
                } else if h.trailing_garbage {
                    FrameView::PutRejected(PutRejection::TrailingGarbage)
                } else {
                    FrameView::PutStarted { too_big: false }
                },
            ),
            _ => c.take_line(line).1 is Some && !(c.take_line(line).1->0 is PutStarted),
        },
{
    reveal(CodecView::take_line);
}

} // verus!
