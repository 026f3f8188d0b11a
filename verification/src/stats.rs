//! The statistics of a run: how many queries were answered, and the
//! smallest, largest, median and mean elapsed time and their standard
//! deviation, all in whole nanoseconds.

use crate::scheduler::MAX_DOMAINS;
use vstd::arithmetic::div_mod::lemma_fundamental_div_mod_converse;
use vstd::prelude::*;
use vstd::relations::{sorted_by, total_ordering};
use vstd::seq_lib::lemma_sorted_unique;

verus! {

/// Two to the power of 64: the base in which wide numbers are held as two
/// digits.
const BASE: u128 = 0x1_0000_0000_0000_0000;

/// The sum of the samples.
pub open spec fn sum(s: Seq<u64>) -> int
    decreases s.len(),
{
    if s.len() == 0 {
        0
    } else {
        sum(s.drop_last()) + s.last()
    }
}

/// The sum of the squares of the samples.
pub open spec fn sum_of_squares(s: Seq<u64>) -> int
    decreases s.len(),
{
    if s.len() == 0 {
        0
    } else {
        sum_of_squares(s.drop_last()) + s.last() * s.last()
    }
}

/// The sum of the squared distances of the samples from `m`.
pub open spec fn sum_of_distances(s: Seq<u64>, m: int) -> int
    decreases s.len(),
{
    if s.len() == 0 {
        0
    } else {
        sum_of_distances(s.drop_last(), m) + (s.last() - m) * (s.last() - m)
    }
}

/// The spread of `n` samples: `n` times the sum of their squares less the
/// square of their sum. That is `n` times the sum of the squared distances
/// of the samples from their mean.
pub open spec fn spread(s: Seq<u64>) -> int {
    s.len() * sum_of_squares(s) - sum(s) * sum(s)
}

/// The order of the samples.
pub open spec fn at_most() -> spec_fn(u64, u64) -> bool {
    |a: u64, b: u64| a <= b
}

/// The samples in ascending order.
pub open spec fn ascending(s: Seq<u64>) -> Seq<u64> {
    s.sort_by(at_most())
}

/// `r` is the sample standard deviation of `s`, rounded down. For two or
/// more samples that is the largest whole number whose square is at most the
/// spread divided by `n * (n - 1)`, which is the sum of the squared distances
/// from the mean divided by `n - 1`. For fewer it is 0.
pub open spec fn is_stddev_of(r: int, s: Seq<u64>) -> bool {
    let n = s.len() as int;
    if n < 2 {
        r == 0
    } else {
        &&& r >= 0
        &&& r * r * (n * (n - 1)) <= spread(s)
        &&& spread(s) < (r + 1) * (r + 1) * (n * (n - 1))
    }
}

/// The sums of a sequence with one more sample at its end.
proof fn lemma_sums_push(s: Seq<u64>, x: u64, m: int)
    ensures
        sum(s.push(x)) == sum(s) + x,
        sum_of_squares(s.push(x)) == sum_of_squares(s) + x * x,
        sum_of_distances(s.push(x), m) == sum_of_distances(s, m) + (x - m) * (x - m),
{
    assert(s.push(x).drop_last() =~= s);
}

/// The sum of samples lies between 0 and the largest value for each.
proof fn lemma_sum_bounds(s: Seq<u64>)
    ensures
        0 <= sum(s) <= s.len() * u64::MAX,
        0 <= sum_of_squares(s) <= u64::MAX * sum(s),
    decreases s.len(),
{
    if s.len() > 0 {
        lemma_sum_bounds(s.drop_last());
        let x = s.last() as int;
        let max = u64::MAX as int;
        let len = s.len() as int;
        assert(0 <= x * x <= max * x) by (nonlinear_arith)
            requires
                0 <= x <= max,
        ;
        assert(max * (sum(s.drop_last()) + x) == max * sum(s.drop_last()) + max * x)
            by (nonlinear_arith);
        assert((len - 1) * max + max == len * max) by (nonlinear_arith);
    }
}

/// The squared distances from `m`, written out in the sums of the samples.
proof fn lemma_distances_expand(s: Seq<u64>, m: int)
    ensures
        sum_of_distances(s, m) == sum_of_squares(s) - 2 * m * sum(s) + s.len() * m * m,
    decreases s.len(),
{
    if s.len() > 0 {
        let front = s.drop_last();
        lemma_distances_expand(front, m);
        let x = s.last() as int;
        let len = s.len() as int;
        let a = sum(front);
        assert((x - m) * (x - m) == x * x - 2 * m * x + m * m) by (nonlinear_arith);
        assert(2 * m * (a + x) == 2 * m * a + 2 * m * x) by (nonlinear_arith);
        assert(len * m * m == (len - 1) * m * m + m * m) by (nonlinear_arith);
    }
}

/// The squared distances from `m` add up to no less than the distances.
proof fn lemma_distances_dominate(s: Seq<u64>, m: int)
    ensures
        sum_of_distances(s, m) >= sum(s) - s.len() * m,
        sum_of_distances(s, m) >= 0,
    decreases s.len(),
{
    if s.len() > 0 {
        lemma_distances_dominate(s.drop_last(), m);
        let d = s.last() - m;
        let len = s.len() as int;
        assert(d * d >= d && d * d >= 0) by (nonlinear_arith);
        assert(len * m == (len - 1) * m + m) by (nonlinear_arith);
    }
}

/// The spread is `n` times the sum of the squared distances from any `m`,
/// less the square of what the sum of the samples exceeds `n * m` by. For
/// `m` the mean the second term is 0: the spread is `n` times the sum of the
/// squared distances from the mean.
pub proof fn lemma_spread_shift(s: Seq<u64>, m: int)
    ensures
        spread(s) == s.len() * sum_of_distances(s, m) - (sum(s) - s.len() * m) * (sum(s) - s.len()
            * m),
{
    lemma_distances_expand(s, m);
    let n = s.len() as int;
    let q = sum_of_squares(s);
    let t = sum(s);
    let d = sum_of_distances(s, m);
    assert(d == q - 2 * m * t + n * m * m);
    assert(n * d - (t - n * m) * (t - n * m) == n * q - t * t) by (nonlinear_arith)
        requires
            d == q - 2 * m * t + n * m * m,
    ;
}

/// The spread is not negative, and four times the spread is at most the
/// square of `n` times the largest value of a sample.
proof fn lemma_spread_bounds(s: Seq<u64>)
    requires
        s.len() >= 1,
    ensures
        0 <= spread(s),
        4 * spread(s) <= (s.len() * u64::MAX) * (s.len() * u64::MAX),
{
    let n = s.len() as int;
    let t = sum(s);
    let q = sum_of_squares(s);
    let max = u64::MAX as int;
    lemma_sum_bounds(s);
    assert(4 * (n * q - t * t) <= (n * max) * (n * max)) by (nonlinear_arith)
        requires
            q <= max * t,
            n >= 1,
    {
        assert(n * q <= n * (max * t));
        assert((n * max - 2 * t) * (n * max - 2 * t) >= 0);
        assert((n * max - 2 * t) * (n * max - 2 * t) == (n * max) * (n * max) - 4 * (n * (max
            * t)) + 4 * (t * t));
    }
    let m = t / n;
    let r = t % n;
    vstd::arithmetic::div_mod::lemma_fundamental_div_mod(t, n);
    assert(n * m == n * (t / n));
    assert(r == t - n * m);
    assert(0 <= r < n);
    lemma_spread_shift(s, m);
    lemma_distances_dominate(s, m);
    let d = sum_of_distances(s, m);
    assert(n * d - r * r >= 0) by (nonlinear_arith)
        requires
            d >= r,
            0 <= r < n,
    {
        assert(n * d >= n * r);
        assert(n * r >= r * r);
    }
}

/// The sum of the samples.
fn total(samples: &Vec<u64>) -> (t: u128)
    requires
        samples@.len() <= MAX_DOMAINS,
    ensures
        t == sum(samples@),
{
    let n = samples.len();
    let mut t: u128 = 0;
    let mut i: usize = 0;
    while i < n
        invariant
            i <= n,
            n == samples@.len(),
            n <= MAX_DOMAINS,
            t == sum(samples@.take(i as int)),
        decreases n - i,
    {
        proof {
            lemma_sum_bounds(samples@.take(i as int));
            lemma_sums_push(samples@.take(i as int), samples@[i as int], 0);
            assert(samples@.take(i as int).push(samples@[i as int]) =~= samples@.take(i + 1));
            assert(i * u64::MAX <= MAX_DOMAINS * u64::MAX) by (nonlinear_arith)
                requires
                    i <= MAX_DOMAINS,
            ;
        }
        t = t + samples[i] as u128;
        i += 1;
    }
    assert(samples@.take(n as int) =~= samples@);
    t
}

/// The square root of `v`, rounded down.
fn square_root(v: u128) -> (r: u64)
    ensures
        r * r <= v < (r + 1) * (r + 1),
{
    let mut low: u128 = 0;
    let mut high: u128 = BASE;
    assert(BASE * BASE > u128::MAX) by (nonlinear_arith);
    while high - low > 1
        invariant
            low < high <= BASE,
            low * low <= v < high * high,
        decreases high - low,
    {
        let mid: u128 = low + (high - low) / 2;
        assert(mid * mid <= (BASE - 1) * (BASE - 1)) by (nonlinear_arith)
            requires
                0 <= mid <= BASE - 1,
        ;
        if mid * mid <= v {
            low = mid;
        } else {
            high = mid;
        }
    }
    low as u64
}

/// The sum of the squared distances of the samples from `m`, as two digits
/// in base `BASE`: the first times `BASE`, plus the second.
fn squared_distances(samples: &Vec<u64>, m: u64) -> (r: (u128, u128))
    requires
        samples@.len() <= MAX_DOMAINS,
    ensures
        r.0 * BASE + r.1 == sum_of_distances(samples@, m as int),
        r.0 <= samples@.len() * (BASE - 1),
        r.1 <= samples@.len() * (BASE - 1),
{
    let n = samples.len();
    let mut high: u128 = 0;
    let mut low: u128 = 0;
    let mut i: usize = 0;
    while i < n
        invariant
            i <= n,
            n == samples@.len(),
            n <= MAX_DOMAINS,
            high * BASE + low == sum_of_distances(samples@.take(i as int), m as int),
            high <= i * (BASE - 1),
            low <= i * (BASE - 1),
        decreases n - i,
    {
        let x = samples[i];
        let d: u128 = if x >= m {
            (x - m) as u128
        } else {
            (m - x) as u128
        };
        proof {
            lemma_sums_push(samples@.take(i as int), x, m as int);
            assert(samples@.take(i as int).push(x) =~= samples@.take(i + 1));
            assert(d * d <= (BASE - 1) * (BASE - 1)) by (nonlinear_arith)
                requires
                    0 <= d <= BASE - 1,
            ;
            assert((BASE - 1) * (BASE - 1) == 0xffff_ffff_ffff_fffe_0000_0000_0000_0001)
                by (nonlinear_arith);
            assert(d * d == (x - m) * (x - m)) by (nonlinear_arith)
                requires
                    d == x - m || d == m - x,
            ;
            assert(i * (BASE - 1) <= MAX_DOMAINS * (BASE - 1)) by (nonlinear_arith)
                requires
                    i <= MAX_DOMAINS,
            ;
        }
        let square: u128 = d * d;
        assert(square / BASE <= BASE - 1);
        assert((i + 1) * (BASE - 1) == i * (BASE - 1) + (BASE - 1)) by (nonlinear_arith);
        let ghost before = high * BASE + low;
        high = high + square / BASE;
        low = low + square % BASE;
        assert(high * BASE + low == before + square) by (nonlinear_arith)
            requires
                high * BASE + low == before + (square / BASE) * BASE + square % BASE,
                square == (square / BASE) * BASE + square % BASE,
        ;
        i += 1;
    }
    assert(samples@.take(n as int) =~= samples@);
    (high, low)
}

/// The sample standard deviation of two or more samples, rounded down.
///
/// The spread is built from the distances of the samples from the whole
/// part of their mean, which keeps every partial sum within two digits in
/// base `BASE`; it is then divided by `n * (n - 1)` digit by digit.
fn deviation(samples: &Vec<u64>, sum_of_samples: u128) -> (r: u64)
    requires
        2 <= samples@.len() <= MAX_DOMAINS,
        sum_of_samples == sum(samples@),
    ensures
        is_stddev_of(r as int, samples@),
{
    let n: u128 = samples.len() as u128;
    let ghost max = u64::MAX as int;
    proof {
        lemma_sum_bounds(samples@);
        lemma_spread_bounds(samples@);
        assert(sum_of_samples / n <= max) by (nonlinear_arith)
            requires
                sum_of_samples <= n * max,
                n > 0,
        ;
    }
    let mean: u64 = (sum_of_samples / n) as u64;
    let rest: u128 = sum_of_samples % n;
    let (high, low) = squared_distances(samples, mean);
    let ghost distances = sum_of_distances(samples@, mean as int);
    proof {
        vstd::arithmetic::div_mod::lemma_fundamental_div_mod(sum_of_samples as int, n as int);
        assert(rest == sum(samples@) - n * mean);
        lemma_spread_shift(samples@, mean as int);
        assert(spread(samples@) == n * distances - rest * rest);
        assert(n * low <= 65535 * (65535 * (BASE - 1)) && n * high <= 65535 * (65535 * (BASE
            - 1))) by (nonlinear_arith)
            requires
                0 <= n <= 65535,
                0 <= low <= n * (BASE - 1),
                0 <= high <= n * (BASE - 1),
        ;
        assert(rest * rest <= 65535 * 65535) by (nonlinear_arith)
            requires
                0 <= rest < n,
                n <= 65535,
        ;
    }
    // n * distances as two digits
    let scaled_low: u128 = n * low;
    let carry: u128 = scaled_low / BASE;
    let digit: u128 = scaled_low % BASE;
    let scaled_high: u128 = n * high + carry;
    assert(scaled_high * BASE + digit == n * distances) by (nonlinear_arith)
        requires
            high * BASE + low == distances,
            scaled_low == n * low,
            scaled_low == carry * BASE + digit,
            scaled_high == n * high + carry,
    ;
    // the spread as two digits
    let square: u128 = rest * rest;
    let (top, bottom): (u128, u128) = if digit >= square {
        (scaled_high, digit - square)
    } else {
        assert(scaled_high >= 1) by (nonlinear_arith)
            requires
                scaled_high * BASE + digit - square >= 0,
                digit < square,
                scaled_high >= 0,
        ;
        (scaled_high - 1, digit + BASE - square)
    };
    assert(top * BASE + bottom == spread(samples@)) by (nonlinear_arith)
        requires
            scaled_high * BASE + digit - square == spread(samples@),
            (top == scaled_high && bottom == digit - square) || (top == scaled_high - 1 && bottom
                == digit + BASE - square),
    ;
    assert(0 <= bottom < BASE);
    // the spread divided by n * (n - 1)
    assert(2 <= n * (n - 1) <= 65535 * 65534) by (nonlinear_arith)
        requires
            2 <= n <= 65535,
    ;
    let divisor: u128 = n * (n - 1);
    let first: u128 = top / divisor;
    let left: u128 = top % divisor;
    assert(left * BASE <= 65535 * 65534 * BASE) by (nonlinear_arith)
        requires
            left <= 65535 * 65534,
    ;
    let lower: u128 = left * BASE + bottom;
    let second: u128 = lower / divisor;
    let ghost remainder = (lower % divisor) as int;
    let ghost quotient = first * BASE + second;
    proof {
        let sp = spread(samples@);
        vstd::arithmetic::div_mod::lemma_fundamental_div_mod(top as int, divisor as int);
        vstd::arithmetic::div_mod::lemma_fundamental_div_mod(lower as int, divisor as int);
        assert(top == first * divisor + left) by (nonlinear_arith)
            requires
                top == divisor * first + left,
        ;
        assert(lower == second * divisor + remainder) by (nonlinear_arith)
            requires
                lower == divisor * second + remainder,
        ;
        assert(sp == quotient * divisor + remainder) by (nonlinear_arith)
            requires
                sp == top * BASE + bottom,
                top == first * divisor + left,
                lower == left * BASE + bottom,
                lower == second * divisor + remainder,
                quotient == first * BASE + second,
        ;
        lemma_fundamental_div_mod_converse(sp, divisor as int, quotient, remainder);
        // the quotient is at most half the square of the largest sample
        assert(2 * quotient <= max * max) by (nonlinear_arith)
            requires
                quotient * divisor <= sp,
                4 * sp <= (n * max) * (n * max),
                divisor == n * (n - 1),
                n >= 2,
                quotient >= 0,
                max >= 0,
        {
            assert((n * max) * (n * max) == n * n * (max * max));
            assert(4 * (quotient * (n * (n - 1))) <= n * n * (max * max));
            assert(2 * (n - 1) >= n);
            assert(2 * quotient * (2 * (n - 1)) * n <= n * n * (max * max));
            assert(2 * quotient * n * n <= 2 * quotient * (2 * (n - 1)) * n);
            assert((2 * quotient) * (n * n) <= (max * max) * (n * n));
        }
        assert(max * max < 2 * (u128::MAX as int)) by (nonlinear_arith)
            requires
                max == u64::MAX,
        ;
        assert(first * BASE <= quotient);
    }
    let variance: u128 = first * BASE + second;
    let r = square_root(variance);
    proof {
        let sp = spread(samples@);
        let d = divisor as int;
        let v = variance as int;
        let root = r as int;
        assert(v * d <= sp < (v + 1) * d) by (nonlinear_arith)
            requires
                sp == v * d + remainder,
                0 <= remainder < d,
        ;
        assert(root * root * d <= sp) by (nonlinear_arith)
            requires
                root * root <= v,
                v * d <= sp,
                d > 0,
        ;
        assert(sp < (root + 1) * (root + 1) * d) by (nonlinear_arith)
            requires
                v + 1 <= (root + 1) * (root + 1),
                sp < (v + 1) * d,
                d > 0,
        ;
        assert(d == (n as int) * (n - 1));
    }
    r
}

/// `slice::sort_unstable` on the samples: afterwards they are the same
/// samples, each as often as before, in ascending order.
#[verifier::external_body]
fn sort_ascending(samples: &mut Vec<u64>)
    ensures
        final(samples)@.to_multiset() == old(samples)@.to_multiset(),
        forall|i: int, j: int|
            0 <= i < j < final(samples)@.len() ==> final(samples)@[i] <= final(samples)@[j],
{
    samples.sort_unstable();
}

/// The statistics of the elapsed times of one run, in nanoseconds.
#[derive(Debug, Clone, Copy, PartialEq, Eq, Structural)]
pub struct Summary {
    /// The number of queries that were answered.
    pub n_samples: usize,
    /// The number of queries that were not.
    pub n_unanswered: usize,
    /// The shortest elapsed time.
    pub min_ns: u64,
    /// The longest elapsed time.
    pub max_ns: u64,
    /// The elapsed time at index `n / 2`, counted from 0, of the `n` samples
    /// in ascending order. No value between two samples is ever made up.
    pub median_ns: u64,
    /// The mean elapsed time, rounded down.
    pub mean_ns: u64,
    /// The sample standard deviation of the elapsed times, rounded down; 0
    /// for a single sample.
    pub stddev_ns: u64,
}

/// `summary` is the summary of the `samples` of a run of `total` queries.
pub open spec fn summarizes(summary: Summary, samples: Seq<u64>, total: nat) -> bool {
    let n = samples.len() as int;
    let sorted = ascending(samples);
    &&& summary.n_samples == n
    &&& summary.n_unanswered == total - n
    &&& summary.min_ns == sorted[0]
    &&& summary.max_ns == sorted[n - 1]
    &&& summary.median_ns == sorted[n / 2]
    &&& summary.mean_ns == sum(samples) / n
    &&& is_stddev_of(summary.stddev_ns as int, samples)
}

/// What the statistics of `samples` are: nothing for no samples, and for
/// any other number of samples their one summary.
pub open spec fn summary_is(result: Option<Summary>, samples: Seq<u64>, total: nat) -> bool {
    match result {
        None => samples.len() == 0,
        Some(summary) => samples.len() > 0 && summarizes(summary, samples, total),
    }
}

/// "At most" orders the samples totally.
proof fn lemma_at_most_total()
    ensures
        total_ordering(at_most()),
{
    let r = at_most();
    assert(vstd::relations::reflexive(r));
    assert(vstd::relations::antisymmetric(r));
    assert(vstd::relations::transitive(r));
    assert(vstd::relations::strongly_connected(r));
}

/// Only one number is the standard deviation of given samples.
pub proof fn lemma_stddev_unique(a: int, b: int, samples: Seq<u64>)
    requires
        is_stddev_of(a, samples),
        is_stddev_of(b, samples),
    ensures
        a == b,
{
    let n = samples.len() as int;
    if n >= 2 {
        let d = n * (n - 1);
        let sp = spread(samples);
        assert(d > 0) by (nonlinear_arith)
            requires
                n >= 2,
                d == n * (n - 1),
        ;
        if a < b {
            assert((a + 1) * (a + 1) * d <= b * b * d) by (nonlinear_arith)
                requires
                    0 <= a,
                    a + 1 <= b,
                    d > 0,
            {
                assert((a + 1) * (a + 1) <= b * b);
            }
        } else if b < a {
            assert((b + 1) * (b + 1) * d <= a * a * d) by (nonlinear_arith)
                requires
                    0 <= b,
                    b + 1 <= a,
                    d > 0,
            {
                assert((b + 1) * (b + 1) <= a * a);
            }
        }
    }
}

/// Given samples have only one summary.
pub proof fn lemma_summary_unique(a: Summary, b: Summary, samples: Seq<u64>, total: nat)
    requires
        summarizes(a, samples, total),
        summarizes(b, samples, total),
    ensures
        a == b,
{
    lemma_stddev_unique(a.stddev_ns as int, b.stddev_ns as int, samples);
}

/// The statistics of the elapsed times `samples` of a run of
/// `total_domains` queries.
///
/// There are none for no samples. Otherwise the samples are counted, and
/// with them the queries that have no sample; the smallest, the largest and
/// the median are read from the samples in ascending order, the median at
/// index `n / 2`; the mean is the sum divided by `n`, rounded down; and the
/// standard deviation is that of a sample, with `n - 1` as divisor, rounded
/// down, and 0 for a single sample.
pub fn summarize(samples: Vec<u64>, total_domains: usize) -> (r: Option<Summary>)
    requires
        samples@.len() <= total_domains <= MAX_DOMAINS,
    ensures
        summary_is(r, samples@, total_domains as nat),
{
    let n = samples.len();
    if n == 0 {
        return None;
    }
    let sum_of_samples = total(&samples);
    proof {
        lemma_sum_bounds(samples@);
        assert(sum_of_samples / (n as u128) <= u64::MAX) by (nonlinear_arith)
            requires
                sum_of_samples <= n * u64::MAX,
                n > 0,
        ;
    }
    let mean_ns: u64 = (sum_of_samples / (n as u128)) as u64;
    let stddev_ns: u64 = if n == 1 {
        0
    } else {
        deviation(&samples, sum_of_samples)
    };
    let mut sorted = samples;
    sort_ascending(&mut sorted);
    proof {
        let order = at_most();
        lemma_at_most_total();
        samples@.lemma_sort_by_ensures(order);
        assert(sorted_by(sorted@, order));
        lemma_sorted_unique(sorted@, ascending(samples@), order);
        assert(sorted@ =~= ascending(samples@));
        vstd::seq_lib::to_multiset_len(sorted@);
        vstd::seq_lib::to_multiset_len(samples@);
        assert(sorted@.len() == n);
    }
    Some(
        Summary {
            n_samples: n,
            n_unanswered: total_domains - n,
            min_ns: sorted[0],
            max_ns: sorted[n - 1],
            median_ns: sorted[n / 2],
            mean_ns,
            stddev_ns,
        },
    )
}

} // verus!
