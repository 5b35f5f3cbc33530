//! Reading words and numbers off the front of a byte string.

use crate::proto::{is_name_char, name_char, valid_tube_name, TubeName};
use crate::text::same_bytes;
use vstd::prelude::*;
use vstd::slice::slice_subrange;
use vstd::string::StringSliceAdditionalSpecFns;
use vstd::utf8::{is_leading_byte_width_1, partial_valid_utf8, valid_utf8};

verus! {

/// A class of bytes.
#[derive(Debug, Clone, Copy, PartialEq, Eq, Structural)]
pub enum Class {
    /// The space character alone.
    Space,
    /// Space, tab, line feed, vertical tab, form feed and carriage return.
    Blank,
    /// `0` to `9`.
    Digit,
    /// What may stand in a tube name.
    Name,
}

impl Class {
    /// Whether `b` is of this class.
    pub open spec fn has(self, b: u8) -> bool {
        match self {
            Class::Space => b == 32,
            Class::Blank => b == 32 || 9 <= b <= 13,
            Class::Digit => 48 <= b <= 57,
            Class::Name => name_char(b),
        }
    }

    /// Whether `b` is of this class.
    fn holds(self, b: u8) -> (r: bool)
        ensures
            r == self.has(b),
    {
        match self {
            Class::Space => b == 32,
            Class::Blank => b == 32 || (b >= 9 && b <= 13),
            Class::Digit => b >= 48 && b <= 57,
            Class::Name => is_name_char(b),
        }
    }
}

/// How many bytes of class `c` stand at the front of `s`.
pub open spec fn run(s: Seq<u8>, c: Class) -> nat
    decreases s.len(),
{
    if s.len() == 0 || !c.has(s[0]) {
        0
    } else {
        1 + run(s.skip(1), c)
    }
}

/// `s` without the bytes of class `c` at its front.
pub open spec fn after_run(s: Seq<u8>, c: Class) -> Seq<u8> {
    s.skip(run(s, c) as int)
}

/// The bytes of class `c` at the front of `s`.
pub open spec fn taken(s: Seq<u8>, c: Class) -> Seq<u8> {
    s.take(run(s, c) as int)
}

/// The number that the decimal digits `s` spell.
pub open spec fn number(s: Seq<u8>) -> nat
    decreases s.len(),
{
    if s.len() == 0 {
        0
    } else {
        10 * number(s.drop_last()) + (s.last() - 48) as nat
    }
}

/// The number at the front of `s` and what follows it, if there is a number
/// and it is at most `max`. Spaces may stand before it.
pub open spec fn numeral(s: Seq<u8>, max: nat) -> Option<(nat, Seq<u8>)> {
    let t = after_run(s, Class::Space);
    if run(t, Class::Digit) == 0 || number(taken(t, Class::Digit)) > max {
        None
    } else {
        Some((number(taken(t, Class::Digit)), after_run(t, Class::Digit)))
    }
}

/// The number that `s` consists of, if it is one and at most `max`. Spaces may
/// stand before it.
pub open spec fn numeral_alone(s: Seq<u8>, max: nat) -> Option<nat> {
    match numeral(s, max) {
        Some((n, rest)) => if rest.len() == 0 {
            Some(n)
        } else {
            None
        },
        None => None,
    }
}

/// The bytes of a run are of its class, and the next is not.
pub proof fn lemma_run(s: Seq<u8>, c: Class)
    ensures
        run(s, c) <= s.len(),
        forall|i: int| 0 <= i < run(s, c) ==> c.has(#[trigger] s[i]),
        run(s, c) < s.len() ==> !c.has(s[run(s, c) as int]),
    decreases s.len(),
{
    if s.len() > 0 && c.has(s[0]) {
        lemma_run(s.skip(1), c);
        assert forall|i: int| 0 <= i < run(s, c) implies c.has(#[trigger] s[i]) by {
            if i > 0 {
                assert(s[i] == s.skip(1)[i - 1]);
            }
        }
    }
}

/// A run is as long as its class allows, and no longer.
pub proof fn lemma_run_is(s: Seq<u8>, c: Class, n: int)
    requires
        0 <= n <= s.len(),
        forall|i: int| 0 <= i < n ==> c.has(#[trigger] s[i]),
        n < s.len() ==> !c.has(s[n]),
    ensures
        run(s, c) == n,
{
    lemma_run(s, c);
    if run(s, c) > n {
        assert(c.has(s[n]));
    }
}

/// How many bytes of class `c` stand at the front of `s`.
pub(crate) fn run_length(s: &[u8], c: Class) -> (r: usize)
    ensures
        r == run(s@, c),
        r <= s@.len(),
{
    let n: usize = s.len();
    let mut i: usize = 0;
    while i < n
        invariant
            i <= n,
            n == s@.len(),
            forall|k: int| 0 <= k < i ==> c.has(#[trigger] s@[k]),
        decreases n - i,
    {
        if !c.holds(s[i]) {
            proof {
                lemma_run_is(s@, c, i as int);
            }
            return i;
        }
        i = i + 1;
    }
    proof {
        lemma_run_is(s@, c, n as int);
    }
    n
}

/// `s` from position `i` on.
pub(crate) fn rest_of(s: &[u8], i: usize) -> (r: &[u8])
    requires
        i <= s@.len(),
    ensures
        r@ == s@.skip(i as int),
{
    let r = slice_subrange(s, i, s.len());
    assert(s@.subrange(i as int, s@.len() as int) =~= s@.skip(i as int));
    r
}

/// `s` up to position `i`.
pub(crate) fn front_of(s: &[u8], i: usize) -> (r: &[u8])
    requires
        i <= s@.len(),
    ensures
        r@ == s@.take(i as int),
{
    let r = slice_subrange(s, 0, i);
    assert(s@.subrange(0, i as int) =~= s@.take(i as int));
    r
}

/// More digits never spell a smaller number.
proof fn lemma_number_grows(s: Seq<u8>, i: int)
    requires
        0 <= i <= s.len(),
    ensures
        number(s) >= number(s.take(i)),
    decreases s.len() - i,
{
    if i < s.len() {
        lemma_number_grows(s, i + 1);
        assert(s.take(i + 1).drop_last() =~= s.take(i));
    } else {
        assert(s.take(i) =~= s);
    }
}

/// The number that the digits `s` spell, if it fits.
pub(crate) fn digits_value(s: &[u8]) -> (r: Option<u64>)
    requires
        forall|i: int| 0 <= i < s@.len() ==> Class::Digit.has(#[trigger] s@[i]),
    ensures
        match r {
            Some(n) => n == number(s@),
            None => number(s@) > u64::MAX,
        },
{
    let n: usize = s.len();
    let mut v: u64 = 0;
    let mut i: usize = 0;
    while i < n
        invariant
            i <= n,
            n == s@.len(),
            forall|i: int| 0 <= i < s@.len() ==> Class::Digit.has(#[trigger] s@[i]),
            v == number(s@.take(i as int)),
        decreases n - i,
    {
        proof {
            assert(s@.take(i + 1).drop_last() =~= s@.take(i as int));
            assert(Class::Digit.has(s@[i as int]));
            lemma_number_grows(s@, i + 1);
        }
        let d: u64 = (s[i] - 48) as u64;
        match v.checked_mul(10) {
            Some(t) => match t.checked_add(d) {
                Some(w) => {
                    v = w;
                },
                None => {
                    return None;
                },
            },
            None => {
                return None;
            },
        }
        i = i + 1;
    }
    assert(s@.take(n as int) =~= s@);
    Some(v)
}

/// `numeral` up to the largest 64-bit number.
pub(crate) fn read_u64_partial(s: &[u8]) -> (r: Option<(u64, &[u8])>)
    ensures
        match r {
            Some((v, rest)) => numeral(s@, u64::MAX as nat) == Some((v as nat, rest@)),
            None => numeral(s@, u64::MAX as nat) is None,
        },
{
    let t = rest_of(s, run_length(s, Class::Space));
    let n: usize = run_length(t, Class::Digit);
    if n == 0 {
        return None;
    }
    let digits = front_of(t, n);
    proof {
        lemma_run(t@, Class::Digit);
        assert forall|i: int| 0 <= i < digits@.len() implies Class::Digit.has(
            #[trigger] digits@[i],
        ) by {
            assert(digits@[i] == t@[i]);
        }
    }
    match digits_value(digits) {
        Some(v) => Some((v, rest_of(t, n))),
        None => None,
    }
}

/// `numeral` up to the largest 32-bit number.
pub(crate) fn read_u32_partial(s: &[u8]) -> (r: Option<(u32, &[u8])>)
    ensures
        match r {
            Some((v, rest)) => numeral(s@, u32::MAX as nat) == Some((v as nat, rest@)),
            None => numeral(s@, u32::MAX as nat) is None,
        },
{
    match read_u64_partial(s) {
        Some((v, rest)) => if v <= u32::MAX as u64 {
            Some((v as u32, rest))
        } else {
            None
        },
        None => None,
    }
}

/// `numeral_alone` up to the largest 64-bit number.
pub(crate) fn read_u64_full(s: &[u8]) -> (r: Option<u64>)
    ensures
        match r {
            Some(v) => numeral_alone(s@, u64::MAX as nat) == Some(v as nat),
            None => numeral_alone(s@, u64::MAX as nat) is None,
        },
{
    match read_u64_partial(s) {
        Some((v, rest)) => if rest.len() == 0 {
            Some(v)
        } else {
            None
        },
        None => None,
    }
}

/// `numeral_alone` up to the largest 32-bit number.
pub(crate) fn read_u32_full(s: &[u8]) -> (r: Option<u32>)
    ensures
        match r {
            Some(v) => numeral_alone(s@, u32::MAX as nat) == Some(v as nat),
            None => numeral_alone(s@, u32::MAX as nat) is None,
        },
{
    match read_u32_partial(s) {
        Some((v, rest)) => if rest.len() == 0 {
            Some(v)
        } else {
            None
        },
        None => None,
    }
}

/// Whether `line` begins with `word`.
pub open spec fn begins(line: Seq<u8>, word: Seq<u8>) -> bool {
    line.len() >= word.len() && line.take(word.len() as int) == word
}

/// Whether `line` begins with `word`.
pub(crate) fn begins_with(line: &[u8], word: &[u8]) -> (r: bool)
    ensures
        r == begins(line@, word@),
{
    line.len() >= word.len() && same_bytes(front_of(line, word.len()), word)
}

/// `std::str::from_utf8`: the text that the bytes encode, if they are valid
/// UTF-8.
#[verifier::external_body]
pub(crate) fn utf8_text(s: &[u8]) -> (r: Option<&str>)
    ensures
        match r {
            Some(t) => valid_utf8(s@) && t.spec_bytes() == s@,
            None => !valid_utf8(s@),
        },
{
    std::str::from_utf8(s).ok()
}

/// A tube name is text.
proof fn lemma_name_is_text(s: Seq<u8>)
    requires
        forall|i: int| 0 <= i < s.len() ==> name_char(#[trigger] s[i]),
    ensures
        valid_utf8(s),
{
    assert(s.subrange(0, 0) =~= Seq::<u8>::empty());
    assert(partial_valid_utf8(s, 0));
    assert forall|i: int| 0 <= i < s.len() implies #[trigger] is_leading_byte_width_1(s[i]) by {
        assert(name_char(s[i]));
    }
    vstd::utf8::partial_valid_utf8_extend_ascii_block(s, 0, s.len() as int);
    assert(s.subrange(0, s.len() as int) =~= s);
}

/// The tube name that the bytes spell, if they spell one.
pub(crate) fn tube_name_from_bytes(s: &[u8]) -> (r: Option<TubeName>)
    ensures
        match r {
            Some(t) => valid_tube_name(s@) && t@ == s@,
            None => !valid_tube_name(s@),
        },
{
    match utf8_text(s) {
        Some(t) => TubeName::new(t),
        None => {
            proof {
                if valid_tube_name(s@) {
                    lemma_name_is_text(s@);
                }
            }
            None
        },
    }
}

} // verus!
