//! Recording latencies: every sample is kept, by kind of operation, and a
//! summary sorts them at the end.

use vstd::prelude::*;
use vstd::string::StringSliceAdditionalSpecFns;

verus! {

/// Whether the samples ascend.
pub open spec fn ascends(s: Seq<u64>) -> bool {
    forall|i: int, j: int| #![trigger s[i], s[j]] 0 <= i <= j < s.len() ==> s[i] <= s[j]
}

/// `slice::sort_unstable` on numbers: the same samples, ascending.
#[verifier::external_body]
pub(crate) fn sort_samples(v: &mut Vec<u64>)
    ensures
        ascends(final(v)@),
        final(v)@.to_multiset() == old(v)@.to_multiset(),
{
    v.sort_unstable()
}

/// A kind of operation that is timed.
#[derive(Debug, Clone, Copy, PartialEq, Eq, Structural)]
pub enum Op {
    Put,
    Reserve,
    Delete,
}

impl Op {
    /// Every kind, in the order of the report.
    pub const ALL: [Op; 3] = [Op::Put, Op::Reserve, Op::Delete];

    /// The name of the operation.
    pub open spec fn text(self) -> Seq<u8> {
        match self {
            Op::Put => "put".spec_bytes(),
            Op::Reserve => "reserve".spec_bytes(),
            Op::Delete => "delete".spec_bytes(),
        }
    }

    /// The name of the operation.
    pub fn name(self) -> (r: &'static str)
        ensures
            r.spec_bytes() == self.text(),
    {
        match self {
            Op::Put => "put",
            Op::Reserve => "reserve",
            Op::Delete => "delete",
        }
    }
}

/// The samples of one connection, or of all of them once merged.
#[derive(Debug)]
pub struct Recorder {
    put: Vec<u64>,
    reserve: Vec<u64>,
    delete: Vec<u64>,
}

/// What a run's samples of one kind amount to, in nanoseconds.
#[derive(Debug, Clone, Copy, PartialEq, Eq)]
pub struct Summary {
    pub count: usize,
    pub p50: u64,
    pub p99: u64,
    pub p999: u64,
    pub max: u64,
}

/// The rank, from 1, of the sample that is the given percentile of `n`: the
/// smallest that at least that many thousandths of all samples do not exceed.
pub open spec fn nearest_rank(n: nat, per_mille: nat) -> int {
    let r = (per_mille * n + 999) / 1000;
    if r < 1 {
        1
    } else if r > n {
        n as int
    } else {
        r as int
    }
}

/// The nearest-rank percentile of ascending samples.
pub open spec fn percentile_of(s: Seq<u64>, per_mille: nat) -> u64 {
    s[nearest_rank(s.len(), per_mille) - 1]
}

/// The summary of ascending samples.
pub open spec fn summary_of(s: Seq<u64>) -> Summary {
    Summary {
        count: s.len() as usize,
        p50: percentile_of(s, 500),
        p99: percentile_of(s, 990),
        p999: percentile_of(s, 999),
        max: s.last(),
    }
}

/// Nearest-rank percentile of ascending samples, of which there must be some,
/// with the percentile in thousandths (990 for the 99th) so that it is exact.
pub fn percentile(sorted: &[u64], per_mille: usize) -> (r: u64)
    requires
        sorted@.len() > 0,
    ensures
        r == percentile_of(sorted@, per_mille as nat),
{
    let n: usize = sorted.len();
    let m: u128 = per_mille as u128;
    let k: u128 = n as u128;
    assert(m * k <= 0xffff_ffff_ffff_ffff * 0xffff_ffff_ffff_ffff) by (nonlinear_arith)
        requires
            0 <= m <= 0xffff_ffff_ffff_ffff,
            0 <= k <= 0xffff_ffff_ffff_ffff,
    ;
    let rank: u128 = (m * k + 999) / 1000;
    let rank: usize = if rank < 1 {
        1
    } else if rank > k {
        n
    } else {
        rank as usize
    };
    sorted[rank - 1]
}

/// The percentiles of a summary ascend, up to the largest sample, which no
/// sample exceeds.
pub proof fn percentiles_ascend(s: Seq<u64>)
    requires
        ascends(s),
        s.len() > 0,
    ensures
        summary_of(s).p50 <= summary_of(s).p99,
        summary_of(s).p99 <= summary_of(s).p999,
        summary_of(s).p999 <= summary_of(s).max,
        forall|i: int| 0 <= i < s.len() ==> #[trigger] s[i] <= summary_of(s).max,
{
    let n = s.len();
    assert(nearest_rank(n, 500) <= nearest_rank(n, 990));
    assert(nearest_rank(n, 990) <= nearest_rank(n, 999));
    assert(1 <= nearest_rank(n, 500) && nearest_rank(n, 999) <= n);
}

/// How many of `s` are at most `v`.
pub open spec fn at_most(s: Seq<u64>, v: u64) -> nat
    decreases s.len(),
{
    if s.len() == 0 {
        0
    } else {
        at_most(s.drop_last(), v) + (if s.last() <= v {
            1nat
        } else {
            0
        })
    }
}

/// How many of `s` are below `v`.
pub open spec fn below(s: Seq<u64>, v: u64) -> nat
    decreases s.len(),
{
    if s.len() == 0 {
        0
    } else {
        below(s.drop_last(), v) + (if s.last() < v {
            1nat
        } else {
            0
        })
    }
}

/// Whether `v` is the least of `s` that so many thousandths of `s` do not
/// exceed: so many are at most `v`, and fewer than that are below it.
pub open spec fn is_percentile(s: Seq<u64>, per_mille: nat, v: u64) -> bool {
    &&& s.contains(v)
    &&& at_most(s, v) * 1000 >= per_mille * s.len()
    &&& below(s, v) * 1000 < per_mille * s.len()
}

/// Of ascending samples, those up to one that stands at `k` are at most that,
/// and none from there on is below it.
proof fn lemma_up_to(s: Seq<u64>, k: int)
    requires
        ascends(s),
        0 <= k < s.len(),
    ensures
        at_most(s, s[k]) >= k + 1,
        below(s, s[k]) <= k,
    decreases s.len(),
{
    let t = s.drop_last();
    let v = s[k];
    assert(ascends(t));
    if k < t.len() {
        assert(t[k] == v);
        lemma_up_to(t, k);
        assert(s[s.len() - 1] >= s[k]);
    } else {
        lemma_at_most_all(t, v);
        lemma_below_len(t, v);
    }
}

/// All are at most what none exceeds.
proof fn lemma_at_most_all(s: Seq<u64>, v: u64)
    requires
        forall|i: int| 0 <= i < s.len() ==> #[trigger] s[i] <= v,
    ensures
        at_most(s, v) == s.len(),
    decreases s.len(),
{
    if s.len() > 0 {
        let t = s.drop_last();
        assert forall|i: int| 0 <= i < t.len() implies #[trigger] t[i] <= v by {
            assert(t[i] == s[i]);
        }
        lemma_at_most_all(t, v);
        assert(s[s.len() - 1] <= v);
    }
}

/// No more are below than there are.
proof fn lemma_below_len(s: Seq<u64>, v: u64)
    ensures
        below(s, v) <= s.len(),
    decreases s.len(),
{
    if s.len() > 0 {
        lemma_below_len(s.drop_last(), v);
    }
}

/// A percentile of ascending samples, up to all of them, is the least sample
/// that so many thousandths of them do not exceed.
pub proof fn percentile_parts_the_samples(s: Seq<u64>, per_mille: nat)
    requires
        ascends(s),
        s.len() > 0,
        1 <= per_mille <= 1000,
    ensures
        is_percentile(s, per_mille, percentile_of(s, per_mille)),
{
    let n = s.len();
    let r = nearest_rank(n, per_mille);
    let x = per_mille * n;
    assert(1 <= x <= 1000 * n) by (nonlinear_arith)
        requires
            x == per_mille * n,
            1 <= per_mille <= 1000,
            n >= 1,
    ;
    assert(r * 1000 >= x && (r - 1) * 1000 < x);
    lemma_up_to(s, r - 1);
}

/// The summary of samples counts them all. Its figures are the 50th and the 99th
/// percentile, the one in 1000, and the largest sample.
pub proof fn summary_tells_of_the_samples(s: Seq<u64>)
    requires
        ascends(s),
        s.len() > 0,
        s.len() <= usize::MAX,
    ensures
        summary_of(s).count == s.len(),
        is_percentile(s, 500, summary_of(s).p50),
        is_percentile(s, 990, summary_of(s).p99),
        is_percentile(s, 999, summary_of(s).p999),
        s.contains(summary_of(s).max),
        forall|i: int| 0 <= i < s.len() ==> #[trigger] s[i] <= summary_of(s).max,
{
    percentile_parts_the_samples(s, 500);
    percentile_parts_the_samples(s, 990);
    percentile_parts_the_samples(s, 999);
    assert(s[s.len() - 1] == s.last());
}

/// A length of time in nanoseconds, or the largest number there is.
pub open spec fn clamped_nanos(n: u128) -> u64 {
    if n <= u64::MAX {
        n as u64
    } else {
        u64::MAX
    }
}

/// Appends every sample of `src`.
fn append(dst: &mut Vec<u64>, src: &Vec<u64>)
    ensures
        final(dst)@ == old(dst)@ + src@,
{
    let n: usize = src.len();
    let mut i: usize = 0;
    while i < n
        invariant
            i <= n,
            n == src@.len(),
            dst@ == old(dst)@ + src@.take(i as int),
        decreases n - i,
    {
        dst.push(src[i]);
        i = i + 1;
    }
    assert(src@.take(n as int) =~= src@);
}

impl Default for Recorder {
    /// No samples.
    fn default() -> (r: Self)
        ensures
            forall|op: Op| #[trigger] r.samples(op) == Seq::<u64>::empty(),
    {
        Recorder { put: Vec::new(), reserve: Vec::new(), delete: Vec::new() }
    }
}

impl Recorder {
    /// The samples of one kind.
    pub closed spec fn samples(&self, op: Op) -> Seq<u64> {
        match op {
            Op::Put => self.put@,
            Op::Reserve => self.reserve@,
            Op::Delete => self.delete@,
        }
    }

    /// Adds a sample of `n` nanoseconds.
    pub fn record(&mut self, op: Op, n: u128)
        ensures
            final(self).samples(op) == old(self).samples(op).push(clamped_nanos(n)),
            forall|o: Op| o != op ==> #[trigger] final(self).samples(o) == old(self).samples(o),
    {
        let nanos: u64 = if n <= u64::MAX as u128 {
            n as u64
        } else {
            u64::MAX
        };
        match op {
            Op::Put => self.put.push(nanos),
            Op::Reserve => self.reserve.push(nanos),
            Op::Delete => self.delete.push(nanos),
        }
    }

    /// Adds every sample of `other`.
    pub fn merge(&mut self, other: Recorder)
        ensures
            forall|op: Op| #[trigger]
                final(self).samples(op) == old(self).samples(op) + other.samples(op),
    {
        append(&mut self.put, &other.put);
        append(&mut self.reserve, &other.reserve);
        append(&mut self.delete, &other.delete);
    }

    /// How many samples there are of one kind.
    pub fn count(&self, op: Op) -> (r: usize)
        ensures
            r == self.samples(op).len(),
    {
        match op {
            Op::Put => self.put.len(),
            Op::Reserve => self.reserve.len(),
            Op::Delete => self.delete.len(),
        }
    }

    /// How many samples there are.
    pub fn total(&self) -> (r: usize)
        requires
            self.samples(Op::Put).len() + self.samples(Op::Reserve).len() + self.samples(
                Op::Delete,
            ).len() <= usize::MAX,
        ensures
            r == self.samples(Op::Put).len() + self.samples(Op::Reserve).len() + self.samples(
                Op::Delete,
            ).len(),
    {
        self.put.len() + self.reserve.len() + self.delete.len()
    }

    /// Sorts the samples of one kind and sums them up, if there are any.
    pub fn summary(&mut self, op: Op) -> (r: Option<Summary>)
        ensures
            final(self).samples(op).to_multiset() == old(self).samples(op).to_multiset(),
            ascends(final(self).samples(op)),
            forall|o: Op| o != op ==> #[trigger] final(self).samples(o) == old(self).samples(o),
            match r {
                Some(s) => old(self).samples(op).len() > 0 && s == summary_of(
                    final(self).samples(op),
                ),
                None => old(self).samples(op).len() == 0,
            },
    {
        match op {
            Op::Put => summarize(&mut self.put),
            Op::Reserve => summarize(&mut self.reserve),
            Op::Delete => summarize(&mut self.delete),
        }
    }
}

/// Sorts samples and sums them up, if there are any.
fn summarize(v: &mut Vec<u64>) -> (r: Option<Summary>)
    ensures
        final(v)@.to_multiset() == old(v)@.to_multiset(),
        ascends(final(v)@),
        match r {
            Some(s) => old(v)@.len() > 0 && s == summary_of(final(v)@),
            None => old(v)@.len() == 0,
        },
{
    let n: usize = v.len();
    if n == 0 {
        return None;
    }
    sort_samples(v);
    proof {
        broadcast use vstd::seq_lib::group_to_multiset_ensures;

        assert(v@.len() == v@.to_multiset().len());
        assert(old(v)@.len() == old(v)@.to_multiset().len());
    }
    Some(
        Summary {
            count: n,
            p50: percentile(v.as_slice(), 500),
            p99: percentile(v.as_slice(), 990),
            p999: percentile(v.as_slice(), 999),
            max: v[n - 1],
        },
    )
}

} // verus!
