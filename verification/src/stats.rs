//! Order statistics and the mean of a list of latencies.

use vstd::prelude::*;
use vstd::relations::{sorted_by, total_ordering};
use vstd::seq_lib::lemma_sorted_unique;

verus! {

broadcast use vstd::seq_lib::group_to_multiset_ensures, vstd::multiset::group_multiset_axioms;

/// The largest latency a `Duration` can hold, in nanoseconds:
/// `u64::MAX` seconds and 999 999 999 nanoseconds.
pub const MAX_LATENCY_NANOS: u128 = 18_446_744_073_709_551_615_999_999_999;

/// The order latencies are sorted by: that of their length in time.
pub open spec fn latency_order() -> spec_fn(u128, u128) -> bool {
    |a: u128, b: u128| a <= b
}

/// The latencies of `s`, shortest first.
pub open spec fn sorted_latencies(s: Seq<u128>) -> Seq<u128> {
    s.sort_by(latency_order())
}

/// `s` never decreases.
pub open spec fn ascending(s: Seq<u128>) -> bool {
    forall|i: int, j: int| 0 <= i <= j < s.len() ==> s[i] <= s[j]
}

/// The sum of the latencies of `s`, in nanoseconds.
pub open spec fn total_nanos(s: Seq<u128>) -> int
    decreases s.len(),
{
    if s.len() == 0 {
        0
    } else {
        s.first() + total_nanos(s.drop_first())
    }
}

/// The divisor a count of `n` samples becomes when it is taken as a `u32`.
pub open spec fn count_as_u32(n: nat) -> nat {
    n % 0x1_0000_0000
}

/// The mean of `s`: its total divided by its length taken as a `u32`,
/// rounded down.
pub open spec fn mean_nanos(s: Seq<u128>) -> int {
    total_nanos(s) / (count_as_u32(s.len()) as int)
}

/// The rank (index into the sorted samples) of the 99th percentile of `n`
/// samples: `n * 0.99`, rounded down.
pub open spec fn p99_rank(n: nat) -> nat {
    (99 * n) / 100
}

/// The rank of the median of `n` samples.
pub open spec fn p50_rank(n: nat) -> int {
    n as int / 2
}

proof fn lemma_latency_order_total()
    ensures
        total_ordering(latency_order()),
{
}

/// An ascending sequence with the elements of `s` is the sorted `s`.
pub proof fn lemma_ascending_is_sorted(s: Seq<u128>, t: Seq<u128>)
    requires
        ascending(t),
        t.to_multiset() == s.to_multiset(),
    ensures
        t == sorted_latencies(s),
{
    let leq = latency_order();
    lemma_latency_order_total();
    s.lemma_sort_by_ensures(leq);
    assert(sorted_by(t, leq)) by {
        assert forall|i: int, j: int| 0 <= i < j < t.len() implies #[trigger] leq(t[i], t[j]) by {
        }
    }
    lemma_sorted_unique(t, s.sort_by(leq), leq);
}

/// The sorted `s` is ascending and holds the elements of `s`.
pub proof fn lemma_sorted_latencies(s: Seq<u128>)
    ensures
        ascending(sorted_latencies(s)),
        sorted_latencies(s).to_multiset() == s.to_multiset(),
        sorted_latencies(s).len() == s.len(),
{
    let leq = latency_order();
    lemma_latency_order_total();
    s.lemma_sort_by_ensures(leq);
    let t = sorted_latencies(s);
    assert forall|i: int, j: int| 0 <= i <= j < t.len() implies t[i] <= t[j] by {
        if i < j {
            assert(leq(t[i], t[j]));
        }
    }
    t.to_multiset_ensures();
    s.to_multiset_ensures();
}

fn merge(a: &Vec<u128>, b: &Vec<u128>) -> (r: Vec<u128>)
    requires
        ascending(a@),
        ascending(b@),
    ensures
        ascending(r@),
        r@.to_multiset() =~= a@.to_multiset().add(b@.to_multiset()),
        r@.len() == a@.len() + b@.len(),
{
    let mut r: Vec<u128> = Vec::new();
    let mut i: usize = 0;
    let mut j: usize = 0;
    while i < a.len() || j < b.len()
        invariant
            i <= a.len(),
            j <= b.len(),
            ascending(a@),
            ascending(b@),
            ascending(r@),
            r@.len() == i + j,
            r@.to_multiset() =~= a@.subrange(0, i as int).to_multiset().add(
                b@.subrange(0, j as int).to_multiset(),
            ),
            forall|k: int|
                0 <= k < r@.len() ==> (i < a@.len() ==> r@[k] <= a@[i as int]) && (j < b@.len()
                    ==> r@[k] <= b@[j as int]),
        decreases a.len() + b.len() - i - j,
    {
        if j >= b.len() || (i < a.len() && a[i] <= b[j]) {
            let x = a[i];
            proof {
                assert(a@.subrange(0, i + 1) =~= a@.subrange(0, i as int).push(x));
            }
            r.push(x);
            i = i + 1;
        } else {
            let x = b[j];
            proof {
                assert(b@.subrange(0, j + 1) =~= b@.subrange(0, j as int).push(x));
            }
            r.push(x);
            j = j + 1;
        }
    }
    proof {
        assert(a@.subrange(0, a@.len() as int) =~= a@);
        assert(b@.subrange(0, b@.len() as int) =~= b@);
    }
    r
}

fn merge_sort(v: &Vec<u128>, lo: usize, hi: usize) -> (r: Vec<u128>)
    requires
        lo <= hi <= v@.len(),
    ensures
        ascending(r@),
        r@.to_multiset() =~= v@.subrange(lo as int, hi as int).to_multiset(),
        r@.len() == hi - lo,
    decreases hi - lo,
{
    if hi - lo <= 1 {
        let mut r: Vec<u128> = Vec::new();
        if hi - lo == 1 {
            r.push(v[lo]);
        }
        proof {
            assert(r@ =~= v@.subrange(lo as int, hi as int));
        }
        r
    } else {
        let mid = lo + (hi - lo) / 2;
        let left = merge_sort(v, lo, mid);
        let right = merge_sort(v, mid, hi);
        proof {
            vstd::seq_lib::lemma_multiset_commutative(
                v@.subrange(lo as int, mid as int),
                v@.subrange(mid as int, hi as int),
            );
            assert(v@.subrange(lo as int, mid as int) + v@.subrange(mid as int, hi as int)
                =~= v@.subrange(lo as int, hi as int));
        }
        merge(&left, &right)
    }
}

/// A copy of `v`, shortest latency first.
pub fn sorted_copy(v: &Vec<u128>) -> (r: Vec<u128>)
    ensures
        r@ == sorted_latencies(v@),
{
    let r = merge_sort(v, 0, v.len());
    proof {
        assert(v@.subrange(0, v@.len() as int) =~= v@);
        lemma_ascending_is_sorted(v@, r@);
    }
    r
}


/// Whether the statistics of `s` can be taken without a panic: an empty list
/// has none to take; otherwise the total must fit in a `Duration` and the
/// count, taken as a `u32`, must not be zero.
pub open spec fn summarizable(s: Seq<u128>) -> bool {
    s.len() == 0 || (total_nanos(s) <= MAX_LATENCY_NANOS && count_as_u32(s.len()) != 0)
}

/// The sample of rank `rank` among `s` sorted shortest first.
pub open spec fn ranked(s: Seq<u128>, rank: int) -> u128 {
    sorted_latencies(s)[rank]
}

/// A total is never negative.
pub proof fn lemma_total_nonneg(s: Seq<u128>)
    ensures
        total_nanos(s) >= 0,
    decreases s.len(),
{
    if s.len() > 0 {
        lemma_total_nonneg(s.drop_first());
    }
}

/// The sum of the latencies in `v`, in nanoseconds.
pub fn total(v: &Vec<u128>) -> (t: u128)
    requires
        total_nanos(v@) <= MAX_LATENCY_NANOS,
    ensures
        t == total_nanos(v@),
{
    let n = v.len();
    let mut acc: u128 = 0;
    let mut i: usize = 0;
    proof {
        assert(v@.subrange(0, n as int) =~= v@);
    }
    while i < n
        invariant
            n == v@.len(),
            i <= n,
            total_nanos(v@) <= MAX_LATENCY_NANOS,
            acc + total_nanos(v@.subrange(i as int, n as int)) == total_nanos(v@),
        decreases n - i,
    {
        let x = v[i];
        proof {
            let rest = v@.subrange(i as int, n as int);
            assert(rest.drop_first() =~= v@.subrange(i + 1, n as int));
            lemma_total_nonneg(rest.drop_first());
        }
        acc = acc + x;
        i = i + 1;
    }
    proof {
        assert(v@.subrange(n as int, n as int) =~= Seq::<u128>::empty());
    }
    acc
}

/// The mean latency of `v`: its total divided by its length taken as a `u32`.
pub fn mean(v: &Vec<u128>) -> (m: u128)
    requires
        v@.len() > 0,
        summarizable(v@),
    ensures
        m == mean_nanos(v@),
{
    let t = total(v);
    let n64: u64 = v.len() as u64;
    let count: u32 = #[verifier::truncate] (n64 as u32);
    assert(count == n64 % 0x1_0000_0000) by (bit_vector)
        requires
            count == #[verifier::truncate] (n64 as u32),
    ;
    proof {
        lemma_total_nonneg(v@);
    }
    t / (count as u128)
}

/// The index of the 99th percentile among `n` sorted samples.
pub fn p99_index(n: usize) -> (k: usize)
    requires
        n > 0,
    ensures
        k == p99_rank(n as nat),
        k < n,
{
    let q = n / 100;
    let r = n % 100;
    proof {
        lemma_p99_rank(n as int, q as int, r as int);
    }
    q * 99 + r * 99 / 100
}

proof fn lemma_p99_rank(n: int, q: int, r: int)
    requires
        n > 0,
        q == n / 100,
        r == n % 100,
    ensures
        q * 99 + r * 99 / 100 == (99 * n) / 100,
        q * 99 + r * 99 / 100 < n,
        0 <= q * 99 <= n,
{
    assert(n == 100 * q + r && 0 <= r < 100) by (nonlinear_arith)
        requires q == n / 100, r == n % 100, n > 0;
    assert(99 * n == 100 * (99 * q) + 99 * r);
    assert((100 * (99 * q) + 99 * r) / 100 == 99 * q + (99 * r) / 100) by (nonlinear_arith)
        requires 0 <= r < 100, q >= 0;
    assert(r * 99 / 100 <= r);
    assert(r > 0 ==> r * 99 / 100 < r);
}

/// Each sample of `s` lies between the least and the greatest ranked one,
/// and each ranked one is a sample of `s`.
proof fn lemma_ranked_are_samples(s: Seq<u128>)
    requires
        s.len() > 0,
    ensures
        forall|i: int| 0 <= i < s.len() ==> ranked(s, 0) <= #[trigger] s[i] <= ranked(s, s.len() - 1),
        forall|r: int| 0 <= r < s.len() ==> s.contains(#[trigger] ranked(s, r)),
{
    lemma_sorted_latencies(s);
    let t = sorted_latencies(s);
    assert forall|i: int| 0 <= i < s.len() implies ranked(s, 0) <= #[trigger] s[i] <= ranked(s, s.len() - 1) by {
        assert(s.contains(s[i]));
        assert(s.to_multiset().count(s[i]) > 0);
        assert(t.to_multiset().count(s[i]) > 0);
        assert(t.contains(s[i]));
        let j = choose|j: int| 0 <= j < t.len() && t[j] == s[i];
        assert(t[0] <= t[j] <= t[t.len() - 1]);
    }
    assert forall|r: int| 0 <= r < s.len() implies s.contains(#[trigger] ranked(s, r)) by {
        assert(t.contains(t[r]));
        assert(t.to_multiset().count(t[r]) > 0);
        assert(s.to_multiset().count(t[r]) > 0);
    }
}

/// The order statistics of a batch come in order: the minimum, the median,
/// the 99th percentile and the maximum never decrease, each is one of the
/// samples, and every sample lies between the minimum and the maximum.
pub proof fn law_percentiles_ordered(s: Seq<u128>)
    requires
        s.len() > 0,
    ensures
        ranked(s, 0) <= ranked(s, p50_rank(s.len())),
        ranked(s, p50_rank(s.len())) <= ranked(s, p99_rank(s.len()) as int),
        ranked(s, p99_rank(s.len()) as int) <= ranked(s, s.len() - 1),
        s.contains(ranked(s, 0)),
        s.contains(ranked(s, p50_rank(s.len()))),
        s.contains(ranked(s, p99_rank(s.len()) as int)),
        s.contains(ranked(s, s.len() - 1)),
        forall|i: int| 0 <= i < s.len() ==> ranked(s, 0) <= #[trigger] s[i] <= ranked(s, s.len() - 1),
{
    let n = s.len();
    lemma_sorted_latencies(s);
    lemma_ranked_are_samples(s);
    lemma_p99_rank(n as int, n as int / 100, n as int % 100);
    assert(p50_rank(n) <= p99_rank(n));
    assert(s.contains(ranked(s, 0)));
    assert(s.contains(ranked(s, p50_rank(n))));
    assert(s.contains(ranked(s, p99_rank(n) as int)));
    assert(s.contains(ranked(s, n - 1)));
}

/// A total of samples that all lie between `lo` and `hi` lies between the
/// count times `lo` and the count times `hi`.
proof fn lemma_total_bounds(s: Seq<u128>, lo: int, hi: int)
    requires
        forall|i: int| 0 <= i < s.len() ==> lo <= #[trigger] s[i] <= hi,
    ensures
        s.len() * lo <= total_nanos(s) <= s.len() * hi,
    decreases s.len(),
{
    if s.len() > 0 {
        let rest = s.drop_first();
        assert forall|i: int| 0 <= i < rest.len() implies lo <= #[trigger] rest[i] <= hi by {
            assert(rest[i] == s[i + 1]);
        }
        lemma_total_bounds(rest, lo, hi);
        let n = s.len() as int;
        assert(n * lo == lo + (n - 1) * lo) by (nonlinear_arith);
        assert(n * hi == hi + (n - 1) * hi) by (nonlinear_arith);
    }
}

/// The mean of a batch of fewer than 2^32 samples lies between its minimum
/// and its maximum.
pub proof fn law_mean_within_extremes(s: Seq<u128>)
    requires
        0 < s.len() < 0x1_0000_0000,
    ensures
        ranked(s, 0) <= mean_nanos(s) <= ranked(s, s.len() - 1),
{
    let n = s.len() as int;
    lemma_ranked_are_samples(s);
    let lo = ranked(s, 0) as int;
    let hi = ranked(s, s.len() - 1) as int;
    lemma_total_bounds(s, lo, hi);
    let t = total_nanos(s);
    assert(count_as_u32(s.len()) == n);
    assert(lo <= t / n <= hi) by (nonlinear_arith)
        requires
            n > 0,
            n * lo <= t <= n * hi,
    ;
}

/// Removing the sample at `i` takes it off the total.
proof fn lemma_total_remove(s: Seq<u128>, i: int)
    requires
        0 <= i < s.len(),
    ensures
        total_nanos(s) == s[i] + total_nanos(s.remove(i)),
    decreases i,
{
    if i > 0 {
        lemma_total_remove(s.drop_first(), i - 1);
        assert(s.remove(i).drop_first() =~= s.drop_first().remove(i - 1));
        assert(s.remove(i).first() == s.first());
    } else {
        assert(s.remove(0) =~= s.drop_first());
    }
}

/// Two lists with the same samples have the same total.
proof fn lemma_total_same_samples(a: Seq<u128>, b: Seq<u128>)
    requires
        a.to_multiset() == b.to_multiset(),
    ensures
        total_nanos(a) == total_nanos(b),
    decreases a.len(),
{
    a.to_multiset_ensures();
    b.to_multiset_ensures();
    if a.len() == 0 {
        assert(b.len() == 0);
    } else {
        let x = a.first();
        assert(a.contains(x));
        assert(a.to_multiset().count(x) > 0);
        assert(b.to_multiset().count(x) > 0);
        assert(b.contains(x));
        let i = choose|i: int| 0 <= i < b.len() && b[i] == x;
        lemma_total_remove(b, i);
        assert(a.remove(0) =~= a.drop_first());
        assert(a.drop_first().to_multiset() == a.to_multiset().remove(x));
        assert(b.remove(i).to_multiset() == b.to_multiset().remove(x));
        lemma_total_same_samples(a.drop_first(), b.remove(i));
    }
}

/// The statistics of a batch depend only on which samples it holds, not on
/// the order they came in: two lists with the same samples sort alike, have
/// the same total and mean, and can be summarized alike.
pub proof fn law_stats_ignore_order(a: Seq<u128>, b: Seq<u128>)
    requires
        a.to_multiset() == b.to_multiset(),
    ensures
        sorted_latencies(a) == sorted_latencies(b),
        total_nanos(a) == total_nanos(b),
        mean_nanos(a) == mean_nanos(b),
        summarizable(a) == summarizable(b),
        forall|r: int| #[trigger] ranked(a, r) == ranked(b, r),
{
    a.to_multiset_ensures();
    b.to_multiset_ensures();
    lemma_sorted_latencies(a);
    lemma_sorted_latencies(b);
    lemma_ascending_is_sorted(b, sorted_latencies(a));
    lemma_total_same_samples(a, b);
}

/// Why the statistics of a list cannot be taken.
#[derive(Debug, PartialEq, Eq, Structural, Clone, Copy)]
pub enum StatsError {
    /// The total is more than a `Duration` can hold.
    SumOverflow,
    /// The count, taken as a `u32`, is zero.
    ZeroDivisor,
}

/// The error taking the statistics of `s` meets first, if any: the total
/// is taken before it is divided by the count.
pub open spec fn stats_error(s: Seq<u128>) -> Option<StatsError> {
    if s.len() == 0 {
        None
    } else if total_nanos(s) > MAX_LATENCY_NANOS {
        Some(StatsError::SumOverflow)
    } else if count_as_u32(s.len()) == 0 {
        Some(StatsError::ZeroDivisor)
    } else {
        None
    }
}

/// Whether the statistics of `v` can be taken, and if not, why.
pub fn check_summarizable(v: &Vec<u128>) -> (r: Result<(), StatsError>)
    ensures
        r is Ok <==> summarizable(v@),
        r matches Err(e) ==> stats_error(v@) == Some(e),
        r is Ok ==> stats_error(v@) is None,
{
    let n = v.len();
    if n == 0 {
        return Ok(());
    }
    let mut acc: u128 = 0;
    let mut i: usize = 0;
    proof {
        assert(v@.subrange(0, n as int) =~= v@);
    }
    while i < n
        invariant
            n == v@.len(),
            i <= n,
            acc <= MAX_LATENCY_NANOS,
            acc + total_nanos(v@.subrange(i as int, n as int)) == total_nanos(v@),
        decreases n - i,
    {
        let x = v[i];
        proof {
            let rest = v@.subrange(i as int, n as int);
            assert(rest.drop_first() =~= v@.subrange(i + 1, n as int));
            lemma_total_nonneg(rest.drop_first());
        }
        if x > MAX_LATENCY_NANOS - acc {
            return Err(StatsError::SumOverflow);
        }
        acc = acc + x;
        i = i + 1;
    }
    proof {
        assert(v@.subrange(n as int, n as int) =~= Seq::<u128>::empty());
    }
    let n64: u64 = n as u64;
    let count: u32 = #[verifier::truncate] (n64 as u32);
    assert(count == n64 % 0x1_0000_0000) by (bit_vector)
        requires
            count == #[verifier::truncate] (n64 as u32),
    ;
    if count == 0 {
        Err(StatsError::ZeroDivisor)
    } else {
        Ok(())
    }
}

} // verus!
