//! Decimal numbers and byte strings: what replies and reports are made of.

use vstd::prelude::*;
use vstd::string::StringExecFns;
use vstd::string::StringSliceAdditionalSpecFns;

verus! {

/// The decimal digits of `n`, most significant first, with no leading zero.
pub open spec fn decimal(n: nat) -> Seq<u8>
    decreases n,
{
    if n < 10 {
        seq![(48 + n) as u8]
    } else {
        decimal(n / 10).push((48 + n % 10) as u8)
    }
}

/// A number of two digits or more does not begin with a zero.
pub proof fn no_number_begins_with_a_zero(n: nat)
    ensures
        decimal(n).len() >= 1,
        n > 0 ==> decimal(n)[0] != 48,
        n == 0 ==> decimal(n) == seq![48u8],
    decreases n,
{
    if n >= 10 {
        no_number_begins_with_a_zero(n / 10);
        assert(decimal(n)[0] == decimal(n / 10)[0]);
    }
}

/// `n` zero digits.
pub open spec fn zeros(n: nat) -> Seq<u8> {
    Seq::new(n, |i: int| 48u8)
}

/// The decimal digits of `n`, padded on the left with zeros to `width`.
pub open spec fn padded(n: nat, width: nat) -> Seq<u8> {
    if decimal(n).len() < width {
        zeros((width - decimal(n).len()) as nat) + decimal(n)
    } else {
        decimal(n)
    }
}

/// Appends the text `s`.
pub(crate) fn push_str(out: &mut Vec<u8>, s: &str)
    ensures
        final(out)@ == old(out)@ + s.spec_bytes(),
{
    push_bytes(out, s.as_bytes());
}

/// Appends the bytes `s`.
pub(crate) fn push_bytes(out: &mut Vec<u8>, s: &[u8])
    ensures
        final(out)@ == old(out)@ + s@,
{
    let n: usize = s.len();
    let mut i: usize = 0;
    while i < n
        invariant
            i <= n,
            n == s@.len(),
            out@ == old(out)@ + s@.take(i as int),
        decreases n - i,
    {
        out.push(s[i]);
        i = i + 1;
    }
    assert(s@.take(n as int) == s@);
}

/// Appends `n` in decimal.
pub(crate) fn push_decimal(out: &mut Vec<u8>, n: u64)
    ensures
        final(out)@ == old(out)@ + decimal(n as nat),
    decreases n,
{
    if n >= 10 {
        push_decimal(out, n / 10);
    }
    out.push(48 + (n % 10) as u8);
}

/// Appends `n` in decimal, padded on the left with zeros to `width`.
pub(crate) fn push_padded(out: &mut Vec<u8>, n: u64, width: usize)
    ensures
        final(out)@ == old(out)@ + padded(n as nat, width as nat),
{
    let mut digits: Vec<u8> = Vec::new();
    push_decimal(&mut digits, n);
    if digits.len() < width {
        let pad: usize = width - digits.len();
        let mut i: usize = 0;
        while i < pad
            invariant
                i <= pad,
                out@ == old(out)@ + zeros(i as nat),
            decreases pad - i,
        {
            out.push(48);
            i = i + 1;
            assert(zeros(i as nat) =~= zeros((i - 1) as nat).push(48));
        }
    }
    push_bytes(out, digits.as_slice());
}

/// The character of the digit `d`.
pub open spec fn digit(d: nat) -> char {
    (48 + d) as char
}

/// The decimal digits of `n` as text, most significant first, with no leading
/// zero.
pub open spec fn digits(n: nat) -> Seq<char>
    decreases n,
{
    if n < 10 {
        seq![digit(n)]
    } else {
        digits(n / 10).push(digit(n % 10))
    }
}

/// The digit `d` as text.
fn digit_text(d: u64) -> (r: &'static str)
    requires
        d < 10,
    ensures
        r@ == seq![digit(d as nat)],
{
    proof {
        reveal_strlit("0");
        reveal_strlit("1");
        reveal_strlit("2");
        reveal_strlit("3");
        reveal_strlit("4");
        reveal_strlit("5");
        reveal_strlit("6");
        reveal_strlit("7");
        reveal_strlit("8");
        reveal_strlit("9");
    }
    if d == 0 {
        "0"
    } else if d == 1 {
        "1"
    } else if d == 2 {
        "2"
    } else if d == 3 {
        "3"
    } else if d == 4 {
        "4"
    } else if d == 5 {
        "5"
    } else if d == 6 {
        "6"
    } else if d == 7 {
        "7"
    } else if d == 8 {
        "8"
    } else {
        "9"
    }
}

/// Appends `n` in decimal.
pub(crate) fn add_number(out: &mut String, n: u64)
    ensures
        final(out)@ == old(out)@ + digits(n as nat),
    decreases n,
{
    if n >= 10 {
        add_number(out, n / 10);
    }
    out.append(digit_text(n % 10));
}

/// Whether `a` and `b` are the same bytes.
pub(crate) fn same_bytes(a: &[u8], b: &[u8]) -> (r: bool)
    ensures
        r == (a@ == b@),
{
    if a.len() != b.len() {
        return false;
    }
    let n: usize = a.len();
    let mut i: usize = 0;
    while i < n
        invariant
            i <= n,
            n == a@.len() == b@.len(),
            forall|k: int| 0 <= k < i ==> a@[k] == b@[k],
        decreases n - i,
    {
        if a[i] != b[i] {
            return false;
        }
        i = i + 1;
    }
    assert(a@ =~= b@);
    true
}

/// Whether `a` precedes `b` in the order of byte strings: the first byte in
/// which they differ decides, and a proper prefix comes first.
pub open spec fn bytes_lt(a: Seq<u8>, b: Seq<u8>) -> bool {
    exists|k: int| #[trigger]
        first_difference(a, b, k) && (if k < a.len() && k < b.len() {
            a[k] < b[k]
        } else {
            k == a.len() && k < b.len()
        })
}

/// Whether `a` and `b` agree before position `k` and no further.
pub open spec fn first_difference(a: Seq<u8>, b: Seq<u8>, k: int) -> bool {
    &&& 0 <= k <= a.len()
    &&& k <= b.len()
    &&& forall|i: int| 0 <= i < k ==> a[i] == b[i]
    &&& k < a.len() && k < b.len() ==> a[k] != b[k]
}

/// Tests whether `a` precedes `b` in the order of byte strings.
pub(crate) fn less(a: &[u8], b: &[u8]) -> (r: bool)
    ensures
        r == bytes_lt(a@, b@),
{
    let na: usize = a.len();
    let nb: usize = b.len();
    let mut i: usize = 0;
    while i < na && i < nb && a[i] == b[i]
        invariant
            i <= na,
            i <= nb,
            na == a@.len(),
            nb == b@.len(),
            forall|k: int| 0 <= k < i ==> a@[k] == b@[k],
        decreases na - i,
    {
        i = i + 1;
    }
    assert(first_difference(a@, b@, i as int));
    assert forall|k: int| #[trigger] first_difference(a@, b@, k) implies k == i by {
        if k < i {
            assert(a@[k] == b@[k]);
            assert(k < a@.len() && k < b@.len());
        } else if k > i {
            assert(a@[i as int] == b@[i as int]);
        }
    }
    if i < na && i < nb {
        a[i] < b[i]
    } else {
        i == na && i < nb
    }
}

/// Byte strings are ordered as words are: a beginning comes before the whole, and
/// otherwise the first byte that differs decides, whatever follows.
pub proof fn bytes_are_ordered_as_words(a: Seq<u8>, x: u8, y: u8, b: Seq<u8>, c: Seq<u8>)
    ensures
        b.len() > 0 ==> bytes_lt(a, a + b),
        x < y ==> bytes_lt(a.push(x) + b, a.push(y) + c),
{
    let k = a.len() as int;
    if b.len() > 0 {
        assert(first_difference(a, a + b, k));
    }
    if x < y {
        let (s, t) = (a.push(x) + b, a.push(y) + c);
        assert(s[k] == x && t[k] == y);
        assert(first_difference(s, t, k));
    }
}

/// No byte string precedes itself, one of two that differ precedes the other,
/// and the relation is transitive.
pub proof fn bytes_lt_is_a_strict_order(a: Seq<u8>, b: Seq<u8>, c: Seq<u8>)
    ensures
        !bytes_lt(a, a),
        a != b ==> bytes_lt(a, b) || bytes_lt(b, a),
        bytes_lt(a, b) ==> !bytes_lt(b, a),
        bytes_lt(a, b) && bytes_lt(b, c) ==> bytes_lt(a, c),
{
    assert(!bytes_lt(a, a));
    if a != b {
        let m: int = if a.len() < b.len() { a.len() as int } else { b.len() as int };
        let k = choose|k: int| first_difference(a, b, k);
        lemma_some_difference(a, b, m);
        assert(first_difference(a, b, k));
        assert(first_difference(b, a, k));
        if k == a.len() && k == b.len() {
            assert(a =~= b);
        }
    }
    if bytes_lt(a, b) && bytes_lt(b, a) {
        let k = choose|k: int| #[trigger]
            first_difference(a, b, k) && (if k < a.len() && k < b.len() {
                a[k] < b[k]
            } else {
                k == a.len() && k < b.len()
            });
        let l = choose|k: int| #[trigger]
            first_difference(b, a, k) && (if k < b.len() && k < a.len() {
                b[k] < a[k]
            } else {
                k == b.len() && k < a.len()
            });
        if k < l {
            assert(b[k] == a[k]);
        } else if l < k {
            assert(a[l] == b[l]);
        }
    }
    if bytes_lt(a, b) && bytes_lt(b, c) {
        let k = choose|k: int| #[trigger]
            first_difference(a, b, k) && (if k < a.len() && k < b.len() {
                a[k] < b[k]
            } else {
                k == a.len() && k < b.len()
            });
        let l = choose|k: int| #[trigger]
            first_difference(b, c, k) && (if k < b.len() && k < c.len() {
                b[k] < c[k]
            } else {
                k == b.len() && k < c.len()
            });
        let m: int = if k < l { k } else { l };
        assert forall|i: int| 0 <= i < m implies a[i] == c[i] by {
            assert(a[i] == b[i]);
            assert(b[i] == c[i]);
        }
        if k < l {
            assert(b[k] == c[k]);
        } else if l < k {
            assert(a[l] == b[l]);
        }
        assert(first_difference(a, c, m));
    }
}

proof fn lemma_some_difference(a: Seq<u8>, b: Seq<u8>, m: int)
    requires
        0 <= m <= a.len(),
        m <= b.len(),
    ensures
        (exists|k: int| first_difference(a, b, k)) || forall|i: int| 0 <= i < m ==> a[i] == b[i],
        m == a.len() || m == b.len() ==> exists|k: int| first_difference(a, b, k),
    decreases m,
{
    if m > 0 {
        lemma_some_difference(a, b, m - 1);
        if !(exists|k: int| first_difference(a, b, k)) {
            if a[m - 1] != b[m - 1] {
                assert(first_difference(a, b, m - 1));
            }
        }
    }
    if m == a.len() || m == b.len() {
        if !(exists|k: int| first_difference(a, b, k)) {
            assert(first_difference(a, b, m));
        }
    }
}

} // verus!
