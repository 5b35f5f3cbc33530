//! The client's side of the protocol: queueing commands, and reading replies
//! and reports.

use crate::scan::{digits_value, front_of, number, rest_of, utf8_text, Class};
use crate::text::{add_number, digits, same_bytes};
use vstd::prelude::*;
use vstd::string::StringExecFns;
use vstd::string::StringSliceAdditionalSpecFns;
use vstd::utf8::{decode_utf8, valid_utf8};

verus! {

/// A reply line, as far as the client tells replies apart.
#[derive(Debug, PartialEq, Eq)]
pub enum Reply {
    Inserted(u64),
    Reserved { id: u64, body_len: usize },
    Deleted,
    TimedOut,
    Using,
    Watching(u32),
    /// `AUTHENTICATED`, after a token.
    Authenticated,
    /// `OK <n>`, with `n` bytes of YAML to follow.
    OkBody(usize),
    /// Anything else, such as an error.
    Other(String),
}

/// A reply with its text as a plain sequence.
pub enum ReplyView {
    Inserted(u64),
    Reserved { id: u64, body_len: usize },
    Deleted,
    TimedOut,
    Using,
    Watching(u32),
    Authenticated,
    OkBody(usize),
    Other(Seq<char>),
}

impl View for Reply {
    type V = ReplyView;

    open spec fn view(&self) -> ReplyView {
        match *self {
            Reply::Inserted(id) => ReplyView::Inserted(id),
            Reply::Reserved { id, body_len } => ReplyView::Reserved { id, body_len },
            Reply::Deleted => ReplyView::Deleted,
            Reply::TimedOut => ReplyView::TimedOut,
            Reply::Using => ReplyView::Using,
            Reply::Watching(n) => ReplyView::Watching(n),
            Reply::Authenticated => ReplyView::Authenticated,
            Reply::OkBody(n) => ReplyView::OkBody(n),
            Reply::Other(s) => ReplyView::Other(s@),
        }
    }
}

impl Clone for Reply {
    fn clone(&self) -> (r: Self)
        ensures
            r@ == self@,
    {
        match self {
            Reply::Inserted(id) => Reply::Inserted(*id),
            Reply::Reserved { id, body_len } => Reply::Reserved { id: *id, body_len: *body_len },
            Reply::Deleted => Reply::Deleted,
            Reply::TimedOut => Reply::TimedOut,
            Reply::Using => Reply::Using,
            Reply::Watching(n) => Reply::Watching(*n),
            Reply::Authenticated => Reply::Authenticated,
            Reply::OkBody(n) => Reply::OkBody(*n),
            Reply::Other(s) => Reply::Other(s.clone()),
        }
    }
}

/// A reply that was not one of those expected.
#[derive(Debug)]
pub struct Unexpected {
    pub op: &'static str,
    pub reply: Reply,
}

/// That `reply` was not one of those expected to `op`.
pub fn unexpected(op: &'static str, reply: Reply) -> (r: Unexpected)
    ensures
        r.op@ == op@,
        r.reply == reply,
{
    Unexpected { op, reply }
}

/// What `{:?}` writes of text: the text in quotes, with escapes for what cannot
/// stand between them.
pub uninterp spec fn quoted(s: Seq<char>) -> Seq<char>;

/// The `Debug` output of `str`, by `format!`: a function of the text alone.
/// Which characters it escapes, and how, is left unsaid.
#[verifier::external_body]
pub(crate) fn quoted_text(s: &str) -> (r: String)
    ensures
        r@ == quoted(s@),
{
    format!("{:?}", s)
}

impl ReplyView {
    /// The reply as a report shows it.
    pub open spec fn shown(self) -> Seq<char> {
        match self {
            ReplyView::Inserted(id) => "Inserted("@ + digits(id as nat) + ")"@,
            ReplyView::Reserved { id, body_len } => "Reserved { id: "@ + digits(id as nat)
                + ", body_len: "@ + digits(body_len as nat) + " }"@,
            ReplyView::Deleted => "Deleted"@,
            ReplyView::TimedOut => "TimedOut"@,
            ReplyView::Using => "Using"@,
            ReplyView::Watching(n) => "Watching("@ + digits(n as nat) + ")"@,
            ReplyView::Authenticated => "Authenticated"@,
            ReplyView::OkBody(n) => "Ok("@ + digits(n as nat) + ")"@,
            ReplyView::Other(s) => "Other("@ + quoted(s) + ")"@,
        }
    }
}

impl Reply {
    /// The reply as a report shows it.
    pub fn show(&self) -> (r: String)
        ensures
            r@ == self@.shown(),
    {
        match self {
            Reply::Inserted(id) => numbered("Inserted(", *id),
            Reply::Reserved { id, body_len } => {
                let mut r = "Reserved { id: ".to_owned();
                add_number(&mut r, *id);
                r.append(", body_len: ");
                add_number(&mut r, *body_len as u64);
                r.append(" }");
                r
            },
            Reply::Deleted => "Deleted".to_owned(),
            Reply::TimedOut => "TimedOut".to_owned(),
            Reply::Using => "Using".to_owned(),
            Reply::Watching(n) => numbered("Watching(", *n as u64),
            Reply::Authenticated => "Authenticated".to_owned(),
            Reply::OkBody(n) => numbered("Ok(", *n as u64),
            Reply::Other(s) => {
                let mut r = "Other(".to_owned();
                r.append(quoted_text(s.as_str()).as_str());
                r.append(")");
                r
            },
        }
    }
}

/// `front`, then `n`, then a closing bracket.
fn numbered(front: &str, n: u64) -> (r: String)
    ensures
        r@ == front@ + digits(n as nat) + ")"@,
{
    let mut r = front.to_owned();
    add_number(&mut r, n);
    r.append(")");
    r
}

impl Unexpected {
    /// The error's text: what was asked, and what came back.
    pub fn text(&self) -> (r: String)
        ensures
            r@ == "unexpected reply to "@ + self.op@ + ": "@ + self.reply@.shown(),
    {
        let mut r = "unexpected reply to ".to_owned();
        r.append(self.op);
        r.append(": ");
        r.append(self.reply.show().as_str());
        r
    }
}

/// What `String::from_utf8_lossy` makes of bytes.
pub uninterp spec fn lossy(s: Seq<u8>) -> Seq<char>;

/// `String::from_utf8_lossy`: the text that the bytes encode, with what is not
/// valid UTF-8 replaced. Where all of it is valid, nothing is; what is put in
/// the place of what is not is left unsaid.
#[verifier::external_body]
pub(crate) fn lossy_text(s: &[u8]) -> (r: String)
    ensures
        r@ == lossy(s@),
        valid_utf8(s@) ==> r@ == decode_utf8(s@),
{
    String::from_utf8_lossy(s).into_owned()
}

/// Where the first space of `s` stands, or the length of `s` if nowhere.
pub open spec fn word_end(s: Seq<u8>) -> int
    decreases s.len(),
{
    if s.len() == 0 || s[0] == 32 {
        0
    } else {
        1 + word_end(s.skip(1))
    }
}

/// The words of a line: what stands between its spaces, so that two spaces in a
/// row have an empty word between them, and an empty line has one empty word.
pub open spec fn words(s: Seq<u8>) -> Seq<Seq<u8>>
    decreases s.len(),
{
    let n = word_end(s);
    if 0 <= n < s.len() {
        seq![s.take(n)] + words(s.skip(n + 1))
    } else {
        seq![s]
    }
}

/// Whether `s` consists of digits.
pub open spec fn all_digits(s: Seq<u8>) -> bool {
    forall|i: int| 0 <= i < s.len() ==> Class::Digit.has(#[trigger] s[i])
}

/// The number that `s` spells in decimal, if it is at most `max`. One `+` may
/// stand before it.
pub open spec fn plain_number(s: Seq<u8>, max: nat) -> Option<nat> {
    let d = if s.len() > 1 && s[0] == 43 {
        s.skip(1)
    } else {
        s
    };
    if d.len() > 0 && all_digits(d) && number(d) <= max {
        Some(number(d))
    } else {
        None
    }
}

/// What a reply line amounts to.
pub open spec fn reply_of(line: Seq<u8>) -> ReplyView {
    let w = words(line);
    let other = ReplyView::Other(lossy(line));
    if w.len() == 1 && w[0] == "DELETED".spec_bytes() {
        ReplyView::Deleted
    } else if w.len() == 1 && w[0] == "TIMED_OUT".spec_bytes() {
        ReplyView::TimedOut
    } else if w.len() == 1 && w[0] == "AUTHENTICATED".spec_bytes() {
        ReplyView::Authenticated
    } else if w.len() == 2 && w[0] == "USING".spec_bytes() {
        ReplyView::Using
    } else if w.len() == 2 && w[0] == "INSERTED".spec_bytes() {
        match plain_number(w[1], u64::MAX as nat) {
            Some(id) => ReplyView::Inserted(id as u64),
            None => other,
        }
    } else if w.len() == 2 && w[0] == "WATCHING".spec_bytes() {
        match plain_number(w[1], u32::MAX as nat) {
            Some(n) => ReplyView::Watching(n as u32),
            None => other,
        }
    } else if w.len() == 2 && w[0] == "OK".spec_bytes() {
        match plain_number(w[1], usize::MAX as nat) {
            Some(n) => ReplyView::OkBody(n as usize),
            None => other,
        }
    } else if w.len() == 3 && w[0] == "RESERVED".spec_bytes() {
        match (plain_number(w[1], u64::MAX as nat), plain_number(w[2], usize::MAX as nat)) {
            (Some(id), Some(n)) => ReplyView::Reserved { id: id as u64, body_len: n as usize },
            _ => other,
        }
    } else {
        other
    }
}

/// The place of the first space, in one step.
pub proof fn lemma_word_end(s: Seq<u8>, n: int)
    requires
        0 <= n <= s.len(),
        forall|i: int| 0 <= i < n ==> s[i] != 32,
        n < s.len() ==> s[n] == 32,
    ensures
        word_end(s) == n,
    decreases n,
{
    if n > 0 {
        let t = s.skip(1);
        assert forall|i: int| 0 <= i < n - 1 implies t[i] != 32 by {
            assert(t[i] == s[i + 1]);
        }
        lemma_word_end(t, n - 1);
    }
}

/// The first word of the line, and what follows the space behind it.
fn next_word(s: &[u8]) -> (r: (&[u8], Option<&[u8]>))
    ensures
        match r.1 {
            Some(rest) => words(s@) == seq![r.0@] + words(rest@) && rest@.len() < s@.len(),
            None => words(s@) == seq![r.0@],
        },
{
    let len: usize = s.len();
    let mut n: usize = 0;
    while n < len
        invariant
            n <= len,
            len == s@.len(),
            forall|i: int| 0 <= i < n ==> s@[i] != 32,
        decreases len - n,
    {
        if s[n] == 32 {
            proof {
                lemma_word_end(s@, n as int);
            }
            return (front_of(s, n), Some(rest_of(s, n + 1)));
        }
        n = n + 1;
    }
    proof {
        lemma_word_end(s@, n as int);
    }
    (s, None)
}

/// At most three words of a line, and whether there are more.
struct Words<'a> {
    first: &'a [u8],
    second: Option<&'a [u8]>,
    third: Option<&'a [u8]>,
    more: bool,
}

/// Splits a line into words.
fn split_words(line: &[u8]) -> (r: Words<'_>)
    ensures
        ({
            let w = words(line@);
            &&& w.len() >= 1
            &&& r.first@ == w[0]
            &&& r.second is Some <==> w.len() >= 2
            &&& r.second is Some ==> (r.second->0)@ == w[1]
            &&& r.third is Some <==> w.len() >= 3
            &&& r.third is Some ==> (r.third->0)@ == w[2]
            &&& r.more <==> w.len() >= 4
        }),
{
    let (first, rest) = next_word(line);
    match rest {
        None => Words { first, second: None, third: None, more: false },
        Some(rest) => {
            let (second, rest2) = next_word(rest);
            match rest2 {
                None => Words { first, second: Some(second), third: None, more: false },
                Some(rest2) => {
                    let (third, rest3) = next_word(rest2);
                    proof {
                        match rest3 {
                            Some(rest3) => lemma_some_word(rest3@),
                            None => {},
                        }
                    }
                    Words { first, second: Some(second), third: Some(third), more: rest3.is_some() }
                },
            }
        },
    }
}

/// Every line has a word.
proof fn lemma_some_word(s: Seq<u8>)
    ensures
        words(s).len() >= 1,
{
}

/// The number that `s` spells, if it is one of 64 bits.
fn parse_number(s: &[u8]) -> (r: Option<u64>)
    ensures
        match r {
            Some(n) => plain_number(s@, u64::MAX as nat) == Some(n as nat),
            None => plain_number(s@, u64::MAX as nat) is None,
        },
{
    let d = if s.len() > 1 && s[0] == 43 {
        rest_of(s, 1)
    } else {
        s
    };
    let len: usize = d.len();
    if len == 0 {
        return None;
    }
    let mut i: usize = 0;
    while i < len
        invariant
            i <= len,
            len == d@.len(),
            d@ == (if s@.len() > 1 && s@[0] == 43 {
                s@.skip(1)
            } else {
                s@
            }),
            forall|k: int| 0 <= k < i ==> Class::Digit.has(#[trigger] d@[k]),
        decreases len - i,
    {
        if d[i] < 48 || d[i] > 57 {
            assert(!Class::Digit.has(d@[i as int]));
            return None;
        }
        i = i + 1;
    }
    digits_value(d)
}

/// The number that `s` spells, if it is one of 32 bits.
fn parse_small_number(s: &[u8]) -> (r: Option<u32>)
    ensures
        match r {
            Some(n) => plain_number(s@, u32::MAX as nat) == Some(n as nat),
            None => plain_number(s@, u32::MAX as nat) is None,
        },
{
    match parse_number(s) {
        Some(n) => if n <= u32::MAX as u64 {
            Some(n as u32)
        } else {
            None
        },
        None => None,
    }
}

/// The number that `s` spells, if it is one that a length can have.
fn parse_size(s: &[u8]) -> (r: Option<usize>)
    ensures
        match r {
            Some(n) => plain_number(s@, usize::MAX as nat) == Some(n as nat),
            None => plain_number(s@, usize::MAX as nat) is None,
        },
{
    match parse_number(s) {
        Some(n) => if n <= usize::MAX as u64 {
            Some(n as usize)
        } else {
            None
        },
        None => None,
    }
}

/// Parses one reply line, without its `\r\n`.
pub fn parse_reply_line(line: &[u8]) -> (r: Reply)
    ensures
        r@ == reply_of(line@),
{
    let w = split_words(line);
    if w.more {
        return Reply::Other(lossy_text(line));
    }
    match (w.second, w.third) {
        (None, _) => {
            if same_bytes(w.first, "DELETED".as_bytes()) {
                return Reply::Deleted;
            }
            if same_bytes(w.first, "TIMED_OUT".as_bytes()) {
                return Reply::TimedOut;
            }
            if same_bytes(w.first, "AUTHENTICATED".as_bytes()) {
                return Reply::Authenticated;
            }
        },
        (Some(a), None) => {
            if same_bytes(w.first, "USING".as_bytes()) {
                return Reply::Using;
            }
            if same_bytes(w.first, "INSERTED".as_bytes()) {
                if let Some(id) = parse_number(a) {
                    return Reply::Inserted(id);
                }
            } else if same_bytes(w.first, "WATCHING".as_bytes()) {
                if let Some(n) = parse_small_number(a) {
                    return Reply::Watching(n);
                }
            } else if same_bytes(w.first, "OK".as_bytes()) {
                if let Some(n) = parse_size(a) {
                    return Reply::OkBody(n);
                }
            }
        },
        (Some(a), Some(b)) => {
            if same_bytes(w.first, "RESERVED".as_bytes()) {
                if let (Some(id), Some(body_len)) = (parse_number(a), parse_size(b)) {
                    return Reply::Reserved { id, body_len };
                }
            }
        },
    }
    Reply::Other(lossy_text(line))
}

/// Whether `c` is white space, in the sense of Unicode.
pub open spec fn white(c: char) -> bool {
    let n = c as u32;
    ||| 0x9 <= n <= 0xd
    ||| n == 0x20 || n == 0x85 || n == 0xa0 || n == 0x1680
    ||| 0x2000 <= n <= 0x200a
    ||| n == 0x2028 || n == 0x2029 || n == 0x202f || n == 0x205f || n == 0x3000
}

/// `s` without the white space at its front.
pub open spec fn trim_front(s: Seq<char>) -> Seq<char>
    decreases s.len(),
{
    if s.len() > 0 && white(s[0]) {
        trim_front(s.skip(1))
    } else {
        s
    }
}

/// `s` without the white space at its end.
pub open spec fn trim_back(s: Seq<char>) -> Seq<char>
    decreases s.len(),
{
    if s.len() > 0 && white(s.last()) {
        trim_back(s.drop_last())
    } else {
        s
    }
}

/// `s` without the white space at either end.
pub open spec fn trimmed(s: Seq<char>) -> Seq<char> {
    trim_back(trim_front(s))
}

/// `str::trim`: the text without the white space at either end.
#[verifier::external_body]
fn trim_text(s: &str) -> (r: &str)
    ensures
        r@ == trimmed(s@),
{
    s.trim()
}

/// Where the first line of `s` ends, before its line feed if it has one.
pub open spec fn line_end(s: Seq<u8>) -> int
    decreases s.len(),
{
    if s.len() == 0 || s[0] == 10 {
        0
    } else {
        1 + line_end(s.skip(1))
    }
}

/// Whether `: ` stands at `i`.
pub open spec fn pair_at(s: Seq<u8>, i: int) -> bool {
    0 <= i && i + 1 < s.len() && s[i] == 58 && s[i + 1] == 32
}

/// Where the first `: ` of `s` stands, or the length of `s` if nowhere.
pub open spec fn colon_at(s: Seq<u8>) -> int
    decreases s.len(),
{
    if s.len() < 2 {
        s.len() as int
    } else if s[0] == 58 && s[1] == 32 {
        0
    } else {
        1 + colon_at(s.skip(1))
    }
}

/// What stands behind `key` and `: ` on the first line of a report that has
/// those at its front, up to the end of the line.
pub open spec fn stat_value(s: Seq<u8>, key: Seq<u8>) -> Option<Seq<u8>>
    decreases s.len(),
{
    let n = line_end(s);
    let line = s.take(n);
    let k = colon_at(line);
    if 0 <= k && k + 2 <= line.len() && line.take(k) == key {
        Some(line.skip(k + 2))
    } else if 0 <= n < s.len() {
        stat_value(s.skip(n + 1), key)
    } else {
        None
    }
}

/// The place of the first line feed, in one step.
pub proof fn lemma_line_end(s: Seq<u8>, n: int)
    requires
        0 <= n <= s.len(),
        forall|i: int| 0 <= i < n ==> s[i] != 10,
        n < s.len() ==> s[n] == 10,
    ensures
        line_end(s) == n,
    decreases n,
{
    if n > 0 {
        let t = s.skip(1);
        assert forall|i: int| 0 <= i < n - 1 implies t[i] != 10 by {
            assert(t[i] == s[i + 1]);
        }
        lemma_line_end(t, n - 1);
    }
}

/// The place of the first `: `, in one step.
pub proof fn lemma_colon_at(s: Seq<u8>, n: int)
    requires
        0 <= n <= s.len(),
        forall|i: int| 0 <= i < n ==> !(#[trigger] pair_at(s, i)),
        n < s.len() ==> pair_at(s, n),
    ensures
        colon_at(s) == n,
    decreases n,
{
    if n > 0 {
        if s.len() < 2 {
        } else {
            let t = s.skip(1);
            assert(!pair_at(s, 0));
            assert forall|i: int| 0 <= i < n - 1 implies !(#[trigger] pair_at(t, i)) by {
                assert(!pair_at(s, i + 1));
            }
            if n < s.len() {
                assert(pair_at(t, n - 1));
            }
            lemma_colon_at(t, n - 1);
        }
    }
}

/// Where the first line ends.
fn find_line_end(s: &[u8]) -> (r: usize)
    ensures
        r == line_end(s@),
        r <= s@.len(),
        r < s@.len() ==> s@[r as int] == 10,
{
    let len: usize = s.len();
    let mut n: usize = 0;
    while n < len
        invariant
            n <= len,
            len == s@.len(),
            forall|i: int| 0 <= i < n ==> s@[i] != 10,
        decreases len - n,
    {
        if s[n] == 10 {
            proof {
                lemma_line_end(s@, n as int);
            }
            return n;
        }
        n = n + 1;
    }
    proof {
        lemma_line_end(s@, n as int);
    }
    n
}

/// Where the first `: ` stands.
fn find_colon(s: &[u8]) -> (r: usize)
    ensures
        r == colon_at(s@),
        r <= s@.len(),
        r < s@.len() ==> pair_at(s@, r as int),
{
    let len: usize = s.len();
    let mut n: usize = 0;
    while n < len && len - n >= 2
        invariant
            n <= len,
            len == s@.len(),
            forall|i: int| 0 <= i < n ==> !(#[trigger] pair_at(s@, i)),
        decreases len - n,
    {
        if s[n] == 58 && s[n + 1] == 32 {
            proof {
                lemma_colon_at(s@, n as int);
            }
            return n;
        }
        n = n + 1;
    }
    proof {
        assert forall|i: int| 0 <= i < len implies !(#[trigger] pair_at(s@, i)) by {}
        lemma_colon_at(s@, len as int);
    }
    len
}

/// What stands between two ASCII characters of a text is text.
proof fn lemma_cut_is_text(s: Seq<u8>, i: int, j: int)
    requires
        valid_utf8(s),
        0 <= i <= j <= s.len(),
        i == 0 || s[i - 1] < 128,
        j == s.len() || s[j] < 128,
    ensures
        valid_utf8(s.subrange(i, j)),
{
    // Cut off what follows.
    let front = s.subrange(0, j);
    if j < s.len() {
        vstd::utf8::utf8_byte_ranges_bitwise(s[j]);
        vstd::utf8::is_char_boundary_iff_not_is_continuation_byte(s, j);
        vstd::utf8::valid_utf8_split(s, j);
    } else {
        assert(front =~= s);
    }
    assert(valid_utf8(front));
    if i == 0 {
        assert(s.subrange(i, j) =~= front);
    } else {
        // Cut off what comes before the character, and then the character.
        assert(front[i - 1] == s[i - 1]);
        vstd::utf8::utf8_byte_ranges_bitwise(front[i - 1]);
        vstd::utf8::is_char_boundary_iff_not_is_continuation_byte(front, i - 1);
        vstd::utf8::valid_utf8_split(front, i - 1);
        let t = front.subrange(i - 1, j);
        assert(t[0] == s[i - 1]);
        assert(vstd::utf8::pop_first_scalar(t) =~= s.subrange(i, j));
    }
}

/// The value of `key` in a report.
pub fn stats_str<'a>(yaml: &'a str, key: &str) -> (r: Option<&'a str>)
    ensures
        match (r, stat_value(yaml.spec_bytes(), key.spec_bytes())) {
            (Some(v), Some(b)) => v@ == trimmed(decode_utf8(b)),
            (None, None) => true,
            _ => false,
        },
{
    let all = yaml.as_bytes();
    let want = key.as_bytes();
    let len: usize = all.len();
    let ghost s = all@;
    let ghost goal = stat_value(s, want@);
    let mut at: usize = 0;
    proof {
        vstd::utf8::encode_utf8_valid_utf8(yaml@);
        assert(s.skip(0) =~= s);
    }
    loop
        invariant
            at <= len,
            len == all@.len(),
            s == all@,
            valid_utf8(s),
            s == yaml.spec_bytes(),
            want@ == key.spec_bytes(),
            goal == stat_value(s, want@),
            stat_value(s.skip(at as int), want@) == goal,
            at == 0 || s[at - 1] < 128,
        decreases len - at,
    {
        let rest = rest_of(all, at);
        let n: usize = find_line_end(rest);
        let line = front_of(rest, n);
        let k: usize = find_colon(line);
        if k < n && same_bytes(front_of(line, k), want) {
            let value = rest_of(line, k + 2);
            proof {
                let i = at + k + 2;
                let j = at + n;
                assert(value@ =~= s.subrange(i, j));
                assert(line@[k + 1] == s[i - 1]);
                if j < s.len() {
                    assert(rest@[n as int] == s[j]);
                }
                lemma_cut_is_text(s, i, j);
            }
            match utf8_text(value) {
                Some(t) => {
                    proof {
                        vstd::utf8::encode_utf8_decode_utf8(t@);
                        assert(t.spec_bytes() == value@);
                        assert(decode_utf8(value@) == t@);
                    }
                    return Some(trim_text(t));
                },
                None => {
                    return None;
                },
            }
        }
        if n >= rest.len() {
            return None;
        }
        proof {
            assert(rest@.skip(n + 1) =~= s.skip(at + n + 1));
            assert(rest@[n as int] == s[at + n]);
        }
        at = at + n + 1;
    }
}

/// The number that is the value of `key` in a report, if it is one.
pub fn stats_u64(yaml: &str, key: &str) -> (r: Option<u64>)
    ensures
        match stat_value(yaml.spec_bytes(), key.spec_bytes()) {
            Some(b) => match r {
                Some(n) => plain_number(
                    vstd::utf8::encode_utf8(trimmed(decode_utf8(b))),
                    u64::MAX as nat,
                ) == Some(n as nat),
                None => plain_number(
                    vstd::utf8::encode_utf8(trimmed(decode_utf8(b))),
                    u64::MAX as nat,
                ) is None,
            },
            None => r is None,
        },
{
    match stats_str(yaml, key) {
        Some(v) => parse_number(v.as_bytes()),
        None => None,
    }
}

} // verus!
