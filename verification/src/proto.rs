//! The vocabulary of the wire protocol: tube names, commands, replies, and the
//! frames that the codec cuts a byte stream into.
//!
//! Each type that holds text or bytes has a view in which those are plain
//! sequences; contracts compare views.

use crate::buf::{bytes_clone, bytes_of};
use crate::text::same_bytes;
use bytes::Bytes;
use vstd::prelude::*;
use vstd::string::StringSliceAdditionalSpecFns;
use vstd::utf8::encode_utf8;

verus! {

/// Maximum tube name length in bytes.
pub const MAX_TUBE_NAME_LEN: usize = 200;

/// Maximum command line length including `\r\n`.
pub const LINE_BUF_SIZE: usize = 224;

/// The default limit on the size of a job's body.
pub const DEFAULT_MAX_JOB_SIZE: u32 = 65535;

/// Upper bound of the limit that an operator may set on the size of a body.
pub const MAX_JOB_SIZE_LIMIT: u32 = 1_073_741_824;

/// Jobs with a priority below this count as "urgent" in stats.
pub const URGENT_THRESHOLD: u32 = 1024;

/// The number of a job.
pub type JobId = u64;

/// Whether `b` may stand in a tube name.
pub open spec fn name_char(b: u8) -> bool {
    ||| 48 <= b <= 57
    ||| 65 <= b <= 90
    ||| 97 <= b <= 122
    ||| b == 45 || b == 43 || b == 47 || b == 59 || b == 46 || b == 36 || b == 95 || b == 40 || b
        == 41
}

/// Whether `name` is a tube name: 1 to 200 name characters, the first of them
/// not a `-`.
pub open spec fn valid_tube_name(name: Seq<u8>) -> bool {
    &&& 1 <= name.len() <= MAX_TUBE_NAME_LEN
    &&& name[0] != 45
    &&& forall|i: int| 0 <= i < name.len() ==> name_char(#[trigger] name[i])
}

/// The name of the tube that every connection starts on: `default`.
pub open spec fn default_name() -> Seq<u8> {
    seq![100u8, 101u8, 102u8, 97u8, 117u8, 108u8, 116u8]
}

/// The characters of tube names, spelt out.
pub open spec fn name_alphabet() -> Seq<u8> {
    "ABCDEFGHIJKLMNOPQRSTUVWXYZabcdefghijklmnopqrstuvwxyz0123456789-+/;.$_()".spec_bytes()
}

/// A tube name has 1 to 200 characters, all of them letters, digits or one of
/// `-+/;.$_()`, and does not begin with a hyphen; and whatever is so is one.
pub proof fn names_are_spelt_in_the_alphabet(name: Seq<u8>)
    ensures
        valid_tube_name(name) <==> 1 <= name.len() <= 200 && name[0] != "-".spec_bytes()[0]
            && forall|i: int|
            0 <= i < name.len() ==> name_alphabet().contains(#[trigger] name[i]),
        default_name() == "default".spec_bytes(),
{
    let text =
        "ABCDEFGHIJKLMNOPQRSTUVWXYZabcdefghijklmnopqrstuvwxyz0123456789-+/;.$_()";
    reveal_strlit("ABCDEFGHIJKLMNOPQRSTUVWXYZabcdefghijklmnopqrstuvwxyz0123456789-+/;.$_()");
    reveal_strlit("-");
    reveal_strlit("default");
    vstd::utf8::is_ascii_chars_encode_utf8(text@);
    vstd::utf8::is_ascii_chars_encode_utf8("-"@);
    vstd::utf8::is_ascii_chars_encode_utf8("default"@);
    let s = name_alphabet();
    assert(s.len() == 71);
    assert("default".spec_bytes() =~= default_name());
    assert forall|b: u8| #[trigger] name_char(b) == s.contains(b) by {
        if 65 <= b <= 90 {
            assert(s[b - 65] == b);
        } else if 97 <= b <= 122 {
            assert(s[b - 71] == b);
        } else if 48 <= b <= 57 {
            assert(s[b + 4] == b);
        } else {
            assert(s[62] == 45 && s[63] == 43 && s[64] == 47 && s[65] == 59 && s[66] == 46
                && s[67] == 36 && s[68] == 95 && s[69] == 40 && s[70] == 41);
            if s.contains(b) {
                let i = s.index_of(b);
                assert(s[i] == b);
                if i < 26 {
                    assert(s[i] == i + 65);
                } else if i < 52 {
                    assert(s[i] == i + 71);
                } else if i < 62 {
                    assert(s[i] == i - 4);
                }
            }
        }
    }
}

/// Whether `b` may stand in a tube name: a letter, a digit, or one of
/// `-+/;.$_()`.
pub fn is_name_char(b: u8) -> (r: bool)
    ensures
        r == name_char(b),
{
    (b >= 48 && b <= 57) || (b >= 65 && b <= 90) || (b >= 97 && b <= 122) || b == 45 || b == 43 || b
        == 47 || b == 59 || b == 46 || b == 36 || b == 95 || b == 40 || b == 41
}

/// Whether `name` is a tube name.
pub fn validate_tube_name(name: &str) -> (r: bool)
    ensures
        r == valid_tube_name(name.spec_bytes()),
{
    let b = name.as_bytes();
    if b.len() == 0 || b.len() > MAX_TUBE_NAME_LEN {
        return false;
    }
    if b[0] == 45 {
        return false;
    }
    let n: usize = b.len();
    let mut i: usize = 0;
    while i < n
        invariant
            i <= n,
            n == b@.len(),
            b@ == name.spec_bytes(),
            forall|k: int| 0 <= k < i ==> name_char(#[trigger] b@[k]),
        decreases n - i,
    {
        if !is_name_char(b[i]) {
            return false;
        }
        i = i + 1;
    }
    true
}

/// A validated tube name: 1 to 200 name characters, not starting with `-`.
#[derive(Debug, PartialEq, Eq, Hash, PartialOrd, Ord)]
pub struct TubeName {
    name: String,
}

impl View for TubeName {
    type V = Seq<u8>;

    closed spec fn view(&self) -> Seq<u8> {
        encode_utf8(self.name@)
    }
}

impl Clone for TubeName {
    fn clone(&self) -> (r: Self)
        ensures
            r@ == self@,
    {
        proof {
            use_type_invariant(self);
        }
        TubeName { name: self.name.clone() }
    }
}

impl TubeName {
    #[verifier::type_invariant]
    closed spec fn well_formed(self) -> bool {
        valid_tube_name(encode_utf8(self.name@))
    }

    /// The tube name that `name` spells, or `None` where it spells none.
    pub fn new(name: &str) -> (r: Option<Self>)
        ensures
            match r {
                Some(t) => valid_tube_name(name.spec_bytes()) && t@ == name.spec_bytes(),
                None => !valid_tube_name(name.spec_bytes()),
            },
    {
        if validate_tube_name(name) {
            Some(TubeName { name: name.to_owned() })
        } else {
            None
        }
    }

    /// The name `default`.
    pub fn default_tube() -> (r: Self)
        ensures
            r@ == default_name(),
    {
        proof {
            reveal_strlit("default");
            vstd::utf8::is_ascii_chars_encode_utf8("default"@);
            assert(encode_utf8("default"@) =~= default_name());
        }
        TubeName { name: "default".to_owned() }
    }

    /// The name as text. Every tube name that exists is a valid one.
    pub fn as_str(&self) -> (r: &str)
        ensures
            r.spec_bytes() == self@,
            valid_tube_name(self@),
    {
        proof {
            use_type_invariant(self);
        }
        self.name.as_str()
    }

    /// Whether both are the same name.
    pub fn same(&self, other: &TubeName) -> (r: bool)
        ensures
            r == (self@ == other@),
    {
        same_bytes(self.as_str().as_bytes(), other.as_str().as_bytes())
    }
}

/// A fully-decoded client command. Durations (`delay`, `ttr`, timeouts) are
/// in whole seconds exactly as sent on the wire; a `ttr` of 0 is not adjusted
/// here (the engine raises it to 1).
#[derive(Debug, PartialEq, Eq)]
pub enum Command {
    Put { pri: u32, delay: u32, ttr: u32, body: Bytes },
    Use(TubeName),
    Reserve,
    ReserveWithTimeout(u32),
    ReserveJob(JobId),
    Delete(JobId),
    Release { id: JobId, pri: u32, delay: u32 },
    Bury { id: JobId, pri: u32 },
    Touch(JobId),
    Watch(TubeName),
    Ignore(TubeName),
    Peek(JobId),
    PeekReady,
    PeekDelayed,
    PeekBuried,
    Kick(u32),
    KickJob(JobId),
    StatsJob(JobId),
    StatsTube(TubeName),
    Stats,
    ListTubes,
    ListTubeUsed,
    ListTubesWatched,
    Quit,
    PauseTube { tube: TubeName, delay: u32 },
    /// `pause-tube` whose tube-name span and delay both parsed, but whose
    /// name then failed validation (leading `-`, or longer than 200 bytes).
    /// The command is counted all the same, so it reaches the engine, which
    /// counts it and replies `BAD_FORMAT`.
    PauseTubeBadName,
}

/// A command with its name or body as a plain sequence.
pub enum CommandView {
    Put { pri: u32, delay: u32, ttr: u32, body: Seq<u8> },
    Use(Seq<u8>),
    Reserve,
    ReserveWithTimeout(u32),
    ReserveJob(JobId),
    Delete(JobId),
    Release { id: JobId, pri: u32, delay: u32 },
    Bury { id: JobId, pri: u32 },
    Touch(JobId),
    Watch(Seq<u8>),
    Ignore(Seq<u8>),
    Peek(JobId),
    PeekReady,
    PeekDelayed,
    PeekBuried,
    Kick(u32),
    KickJob(JobId),
    StatsJob(JobId),
    StatsTube(Seq<u8>),
    Stats,
    ListTubes,
    ListTubeUsed,
    ListTubesWatched,
    Quit,
    PauseTube { tube: Seq<u8>, delay: u32 },
    PauseTubeBadName,
}

impl View for Command {
    type V = CommandView;

    open spec fn view(&self) -> CommandView {
        match *self {
            Command::Put { pri, delay, ttr, body } => CommandView::Put {
                pri,
                delay,
                ttr,
                body: bytes_of(body),
            },
            Command::Use(t) => CommandView::Use(t@),
            Command::Reserve => CommandView::Reserve,
            Command::ReserveWithTimeout(n) => CommandView::ReserveWithTimeout(n),
            Command::ReserveJob(id) => CommandView::ReserveJob(id),
            Command::Delete(id) => CommandView::Delete(id),
            Command::Release { id, pri, delay } => CommandView::Release { id, pri, delay },
            Command::Bury { id, pri } => CommandView::Bury { id, pri },
            Command::Touch(id) => CommandView::Touch(id),
            Command::Watch(t) => CommandView::Watch(t@),
            Command::Ignore(t) => CommandView::Ignore(t@),
            Command::Peek(id) => CommandView::Peek(id),
            Command::PeekReady => CommandView::PeekReady,
            Command::PeekDelayed => CommandView::PeekDelayed,
            Command::PeekBuried => CommandView::PeekBuried,
            Command::Kick(n) => CommandView::Kick(n),
            Command::KickJob(id) => CommandView::KickJob(id),
            Command::StatsJob(id) => CommandView::StatsJob(id),
            Command::StatsTube(t) => CommandView::StatsTube(t@),
            Command::Stats => CommandView::Stats,
            Command::ListTubes => CommandView::ListTubes,
            Command::ListTubeUsed => CommandView::ListTubeUsed,
            Command::ListTubesWatched => CommandView::ListTubesWatched,
            Command::Quit => CommandView::Quit,
            Command::PauseTube { tube, delay } => CommandView::PauseTube { tube: tube@, delay },
            Command::PauseTubeBadName => CommandView::PauseTubeBadName,
        }
    }
}

impl Clone for Command {
    fn clone(&self) -> (r: Self)
        ensures
            r@ == self@,
    {
        match self {
            Command::Put { pri, delay, ttr, body } => Command::Put {
                pri: *pri,
                delay: *delay,
                ttr: *ttr,
                body: bytes_clone(body),
            },
            Command::Use(t) => Command::Use(t.clone()),
            Command::Reserve => Command::Reserve,
            Command::ReserveWithTimeout(n) => Command::ReserveWithTimeout(*n),
            Command::ReserveJob(id) => Command::ReserveJob(*id),
            Command::Delete(id) => Command::Delete(*id),
            Command::Release { id, pri, delay } => Command::Release {
                id: *id,
                pri: *pri,
                delay: *delay,
            },
            Command::Bury { id, pri } => Command::Bury { id: *id, pri: *pri },
            Command::Touch(id) => Command::Touch(*id),
            Command::Watch(t) => Command::Watch(t.clone()),
            Command::Ignore(t) => Command::Ignore(t.clone()),
            Command::Peek(id) => Command::Peek(*id),
            Command::PeekReady => Command::PeekReady,
            Command::PeekDelayed => Command::PeekDelayed,
            Command::PeekBuried => Command::PeekBuried,
            Command::Kick(n) => Command::Kick(*n),
            Command::KickJob(id) => Command::KickJob(*id),
            Command::StatsJob(id) => Command::StatsJob(*id),
            Command::StatsTube(t) => Command::StatsTube(t.clone()),
            Command::Stats => Command::Stats,
            Command::ListTubes => Command::ListTubes,
            Command::ListTubeUsed => Command::ListTubeUsed,
            Command::ListTubesWatched => Command::ListTubesWatched,
            Command::Quit => Command::Quit,
            Command::PauseTube { tube, delay } => Command::PauseTube {
                tube: tube.clone(),
                delay: *delay,
            },
            Command::PauseTubeBadName => Command::PauseTubeBadName,
        }
    }
}

/// A server reply.
#[derive(Debug, PartialEq, Eq)]
pub enum Response {
    /// `INSERTED <id>`
    Inserted(JobId),
    /// `BURIED <id>` (put that could not be enqueued)
    BuriedId(JobId),
    /// `BURIED`
    Buried,
    /// `USING <tube>`
    Using(TubeName),
    /// `RESERVED <id> <bytes>\r\n<data>`
    Reserved { id: JobId, body: Bytes },
    /// `FOUND <id> <bytes>\r\n<data>`
    Found { id: JobId, body: Bytes },
    /// `WATCHING <count>`
    Watching(u64),
    /// `KICKED <count>` (kick)
    Kicked(u64),
    /// `KICKED` (kick-job)
    KickedJob,
    /// `OK <bytes>\r\n<data>`: stats and list payloads (YAML)
    OkBody(Bytes),
    DeadlineSoon,
    TimedOut,
    Deleted,
    Released,
    Touched,
    NotFound,
    NotIgnored,
    Paused,
    ExpectedCrlf,
    JobTooBig,
    Draining,
    OutOfMemory,
    InternalError,
    BadFormat,
    UnknownCommand,
    /// `AUTHENTICATED`: token accepted (an extension of the protocol).
    Authenticated,
    /// `UNAUTHORIZED`: wrong token, or a command before authentication (an
    /// extension of the protocol); the connection is then closed.
    Unauthorized,
}

/// A reply with its name or body as a plain sequence.
pub enum ResponseView {
    Inserted(JobId),
    BuriedId(JobId),
    Buried,
    Using(Seq<u8>),
    Reserved { id: JobId, body: Seq<u8> },
    Found { id: JobId, body: Seq<u8> },
    Watching(u64),
    Kicked(u64),
    KickedJob,
    OkBody(Seq<u8>),
    DeadlineSoon,
    TimedOut,
    Deleted,
    Released,
    Touched,
    NotFound,
    NotIgnored,
    Paused,
    ExpectedCrlf,
    JobTooBig,
    Draining,
    OutOfMemory,
    InternalError,
    BadFormat,
    UnknownCommand,
    Authenticated,
    Unauthorized,
}

impl View for Response {
    type V = ResponseView;

    open spec fn view(&self) -> ResponseView {
        match *self {
            Response::Inserted(id) => ResponseView::Inserted(id),
            Response::BuriedId(id) => ResponseView::BuriedId(id),
            Response::Buried => ResponseView::Buried,
            Response::Using(t) => ResponseView::Using(t@),
            Response::Reserved { id, body } => ResponseView::Reserved { id, body: bytes_of(body) },
            Response::Found { id, body } => ResponseView::Found { id, body: bytes_of(body) },
            Response::Watching(n) => ResponseView::Watching(n),
            Response::Kicked(n) => ResponseView::Kicked(n),
            Response::KickedJob => ResponseView::KickedJob,
            Response::OkBody(body) => ResponseView::OkBody(bytes_of(body)),
            Response::DeadlineSoon => ResponseView::DeadlineSoon,
            Response::TimedOut => ResponseView::TimedOut,
            Response::Deleted => ResponseView::Deleted,
            Response::Released => ResponseView::Released,
            Response::Touched => ResponseView::Touched,
            Response::NotFound => ResponseView::NotFound,
            Response::NotIgnored => ResponseView::NotIgnored,
            Response::Paused => ResponseView::Paused,
            Response::ExpectedCrlf => ResponseView::ExpectedCrlf,
            Response::JobTooBig => ResponseView::JobTooBig,
            Response::Draining => ResponseView::Draining,
            Response::OutOfMemory => ResponseView::OutOfMemory,
            Response::InternalError => ResponseView::InternalError,
            Response::BadFormat => ResponseView::BadFormat,
            Response::UnknownCommand => ResponseView::UnknownCommand,
            Response::Authenticated => ResponseView::Authenticated,
            Response::Unauthorized => ResponseView::Unauthorized,
        }
    }
}

impl Clone for Response {
    fn clone(&self) -> (r: Self)
        ensures
            r@ == self@,
    {
        match self {
            Response::Inserted(id) => Response::Inserted(*id),
            Response::BuriedId(id) => Response::BuriedId(*id),
            Response::Buried => Response::Buried,
            Response::Using(t) => Response::Using(t.clone()),
            Response::Reserved { id, body } => Response::Reserved {
                id: *id,
                body: bytes_clone(body),
            },
            Response::Found { id, body } => Response::Found { id: *id, body: bytes_clone(body) },
            Response::Watching(n) => Response::Watching(*n),
            Response::Kicked(n) => Response::Kicked(*n),
            Response::KickedJob => Response::KickedJob,
            Response::OkBody(body) => Response::OkBody(bytes_clone(body)),
            Response::DeadlineSoon => Response::DeadlineSoon,
            Response::TimedOut => Response::TimedOut,
            Response::Deleted => Response::Deleted,
            Response::Released => Response::Released,
            Response::Touched => Response::Touched,
            Response::NotFound => Response::NotFound,
            Response::NotIgnored => Response::NotIgnored,
            Response::Paused => Response::Paused,
            Response::ExpectedCrlf => Response::ExpectedCrlf,
            Response::JobTooBig => Response::JobTooBig,
            Response::Draining => Response::Draining,
            Response::OutOfMemory => Response::OutOfMemory,
            Response::InternalError => Response::InternalError,
            Response::BadFormat => Response::BadFormat,
            Response::UnknownCommand => Response::UnknownCommand,
            Response::Authenticated => Response::Authenticated,
            Response::Unauthorized => Response::Unauthorized,
        }
    }
}

/// What the codec cuts a byte stream into.
#[derive(Debug, PartialEq, Eq)]
pub enum Frame {
    /// A well-formed command ready for the engine.
    Command(Command),
    /// A `put` whose numeric fields parsed but which was rejected during
    /// framing. It still goes to the engine, which counts it in `cmd-put`
    /// (and, for `ExpectedCrlf`, marks the connection as a producer and
    /// consumes a job id) and emits the reply. Emitted only by a codec built
    /// with `ServerCodec::emit_put_started`; another answers with `Error`.
    PutRejected(PutRejection),
    /// A `put` command line was accepted and the codec is now reading its
    /// body (or, when `too_big`, discarding it). Emitted only by a codec
    /// built with `ServerCodec::emit_put_started`. On the same connection it
    /// is followed by exactly one completion frame (`Command(Put)`,
    /// `PutRejected(ExpectedCrlf)` or `PutRejected(JobTooBig)`), unless the
    /// connection closes first. No reply.
    PutStarted { too_big: bool },
    /// `auth <token>` (everything after the single space, verbatim). Only
    /// produced by a codec built with `ServerCodec::recognize_auth`; never
    /// sent to the engine. Tokens are limited by the line length.
    Auth(Bytes),
    /// A protocol-level error with no engine side effects. The connection
    /// replies with it directly and stays open.
    Error(Response),
}

/// A frame with its contents as plain sequences.
pub enum FrameView {
    Command(CommandView),
    PutRejected(PutRejection),
    PutStarted { too_big: bool },
    Auth(Seq<u8>),
    Error(ResponseView),
}

impl View for Frame {
    type V = FrameView;

    open spec fn view(&self) -> FrameView {
        match *self {
            Frame::Command(c) => FrameView::Command(c@),
            Frame::PutRejected(why) => FrameView::PutRejected(why),
            Frame::PutStarted { too_big } => FrameView::PutStarted { too_big },
            Frame::Auth(token) => FrameView::Auth(bytes_of(token)),
            Frame::Error(r) => FrameView::Error(r@),
        }
    }
}

impl Clone for Frame {
    fn clone(&self) -> (r: Self)
        ensures
            r@ == self@,
    {
        match self {
            Frame::Command(c) => Frame::Command(c.clone()),
            Frame::PutRejected(why) => Frame::PutRejected(*why),
            Frame::PutStarted { too_big } => Frame::PutStarted { too_big: *too_big },
            Frame::Auth(token) => Frame::Auth(bytes_clone(token)),
            Frame::Error(r) => Frame::Error(r.clone()),
        }
    }
}

/// Why a `put` was rejected. The first three come from the codec;
/// `OutOfMemory` comes from the server when log space for the job cannot be
/// reserved.
#[derive(Debug, Clone, Copy, PartialEq, Eq, Structural)]
pub enum PutRejection {
    /// Body size above the limit; the body has been discarded.
    JobTooBig,
    /// Garbage after the size field; no body bytes were consumed.
    TrailingGarbage,
    /// The body was not followed by `\r\n`.
    ExpectedCrlf,
    /// The body was complete but log space could not be reserved.
    OutOfMemory,
}

impl PutRejection {
    /// The reply to this rejection.
    pub open spec fn reply(self) -> ResponseView {
        match self {
            PutRejection::JobTooBig => ResponseView::JobTooBig,
            PutRejection::TrailingGarbage => ResponseView::BadFormat,
            PutRejection::ExpectedCrlf => ResponseView::ExpectedCrlf,
            PutRejection::OutOfMemory => ResponseView::OutOfMemory,
        }
    }

    /// The reply the client receives for this rejection.
    pub fn response(self) -> (r: Response)
        ensures
            r@ == self.reply(),
    {
        match self {
            PutRejection::JobTooBig => Response::JobTooBig,
            PutRejection::TrailingGarbage => Response::BadFormat,
            PutRejection::ExpectedCrlf => Response::ExpectedCrlf,
            PutRejection::OutOfMemory => Response::OutOfMemory,
        }
    }
}

} // verus!
