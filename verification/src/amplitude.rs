//! Fixed-point amplitudes and the arithmetic the stages share.
//!
//! An amplitude is an `i64` that counts steps of `1 / UNIT` of one scalar
//! value. Sums are exact; a difference or a sum of two amplitudes that leaves
//! the range of `i64` saturates at its ends.

use vstd::arithmetic::div_mod::{
    lemma_fundamental_div_mod, lemma_fundamental_div_mod_converse, lemma_mod_bound,
};
use vstd::prelude::*;

verus! {

/// The amplitude of scalar value one: amplitudes carry sixteen fractional bits.
pub const UNIT: i64 = 65536;

/// `x` limited to the range of an amplitude.
pub open spec fn saturate(x: int) -> i64 {
    if x < i64::MIN {
        i64::MIN
    } else if x > i64::MAX {
        i64::MAX
    } else {
        x as i64
    }
}

/// The sum of all samples.
pub open spec fn sum(samples: Seq<i64>) -> int
    decreases samples.len(),
{
    if samples.len() == 0 {
        0
    } else {
        sum(samples.drop_last()) + samples.last()
    }
}

/// The arithmetic mean of the samples, rounded down to a whole step; zero for
/// no samples.
pub open spec fn mean(samples: Seq<i64>) -> int {
    if samples.len() == 0 {
        0
    } else {
        sum(samples) / (samples.len() as int)
    }
}

/// Every sample moved by `offset`, saturating.
pub open spec fn shifted(samples: Seq<i64>, offset: int) -> Seq<i64> {
    Seq::new(samples.len(), |i: int| saturate(samples[i] + offset))
}

/// The sum of samples that all lie between `lo` and `hi` lies between the
/// two bounds times the number of samples.
pub proof fn lemma_sum_between(samples: Seq<i64>, lo: int, hi: int)
    requires
        forall|i: int| 0 <= i < samples.len() ==> lo <= #[trigger] samples[i] <= hi,
    ensures
        samples.len() * lo <= sum(samples) <= samples.len() * hi,
    decreases samples.len(),
{
    if samples.len() > 0 {
        let front = samples.drop_last();
        assert forall|i: int| 0 <= i < front.len() implies lo <= #[trigger] front[i] <= hi by {
            assert(front[i] == samples[i]);
        }
        lemma_sum_between(front, lo, hi);
        assert(samples.len() * lo == (samples.len() - 1) * lo + lo) by (nonlinear_arith);
        assert(samples.len() * hi == (samples.len() - 1) * hi + hi) by (nonlinear_arith);
    }
}

/// The mean of samples that all lie between `lo` and `hi` lies between them.
pub proof fn lemma_mean_between(samples: Seq<i64>, lo: int, hi: int)
    requires
        samples.len() > 0,
        forall|i: int| 0 <= i < samples.len() ==> lo <= #[trigger] samples[i] <= hi,
    ensures
        lo <= mean(samples) <= hi,
{
    lemma_sum_between(samples, lo, hi);
    let n = samples.len() as int;
    let s = sum(samples);
    assert(lo <= s / n <= hi) by (nonlinear_arith)
        requires
            n > 0,
            n * lo <= s <= n * hi,
    ;
}

/// The mean of amplitudes is an amplitude.
pub proof fn lemma_mean_in_range(samples: Seq<i64>)
    ensures
        i64::MIN <= mean(samples) <= i64::MAX,
{
    if samples.len() > 0 {
        lemma_mean_between(samples, i64::MIN as int, i64::MAX as int);
    }
}

/// Division that rounds down, also for a negative dividend.
pub fn floor_div(a: i128, n: i128) -> (q: i128)
    requires
        n > 0,
    ensures
        q == a / n,
{
    if a >= 0 {
        a / n
    } else {
        let up: i128 = -(a + 1);
        let c: i128 = up / n;
        proof {
            let r = (up as int) % (n as int);
            lemma_fundamental_div_mod(up as int, n as int);
            lemma_mod_bound(up as int, n as int);
            assert(a == (-c - 1) * n + (n - 1 - r)) by (nonlinear_arith)
                requires
                    up == n * c + r,
                    up == -(a + 1),
            ;
            lemma_fundamental_div_mod_converse(a as int, n as int, -c - 1, n - 1 - r);
            assert(0 <= c <= up) by (nonlinear_arith)
                requires
                    up == n * c + r,
                    0 <= r < n,
                    up >= 0,
                    n > 0,
            ;
        }
        -1 - c
    }
}

/// Computes the mean of the samples.
pub fn mean_of(samples: &[i64]) -> (m: i64)
    ensures
        m == mean(samples@),
{
    let n: usize = samples.len();
    if n == 0 {
        return 0;
    }
    let mut total: i128 = 0;
    let mut i: usize = 0;
    while i < n
        invariant
            i <= n,
            n == samples@.len(),
            total == sum(samples@.take(i as int)),
        decreases n - i,
    {
        proof {
            lemma_sum_between(samples@.take(i as int), i64::MIN as int, i64::MAX as int);
            assert(samples@.take(i + 1).drop_last() =~= samples@.take(i as int));
            assert(i * i64::MIN >= usize::MAX * i64::MIN && i * i64::MAX <= usize::MAX * i64::MAX)
                by (nonlinear_arith)
                requires
                    i <= usize::MAX,
            ;
        }
        total = total + samples[i] as i128;
        i = i + 1;
    }
    proof {
        assert(samples@.take(n as int) =~= samples@);
        lemma_mean_in_range(samples@);
    }
    let q: i128 = floor_div(total, n as i128);
    q as i64
}

/// `value + offset`, saturating.
pub fn saturating_offset(value: i64, offset: i128) -> (r: i64)
    requires
        i128::MIN - i64::MIN <= offset <= i128::MAX - i64::MAX,
    ensures
        r == saturate(value + offset),
{
    let wide: i128 = value as i128 + offset;
    if wide < i64::MIN as i128 {
        i64::MIN
    } else if wide > i64::MAX as i128 {
        i64::MAX
    } else {
        wide as i64
    }
}

/// Moves every sample up by `offset`, saturating.
pub fn raise(samples: &[i64], offset: i64) -> (out: Vec<i64>)
    ensures
        out@ == shifted(samples@, offset as int),
{
    shift(samples, offset as i128)
}

/// Moves every sample down by `offset`, saturating.
pub fn lower(samples: &[i64], offset: i64) -> (out: Vec<i64>)
    ensures
        out@ == shifted(samples@, -(offset as int)),
{
    shift(samples, -(offset as i128))
}

/// Moves every sample by `offset`, saturating.
fn shift(samples: &[i64], offset: i128) -> (out: Vec<i64>)
    requires
        -(u64::MAX as int) <= offset <= u64::MAX as int,
    ensures
        out@ == shifted(samples@, offset as int),
{
    let n: usize = samples.len();
    let mut out: Vec<i64> = Vec::with_capacity(n);
    let mut i: usize = 0;
    while i < n
        invariant
            i <= n,
            n == samples@.len(),
            out@.len() == i,
            -(u64::MAX as int) <= offset <= u64::MAX as int,
            forall|j: int| 0 <= j < i ==> out@[j] == saturate(samples@[j] + offset),
        decreases n - i,
    {
        out.push(saturating_offset(samples[i], offset));
        i = i + 1;
    }
    assert(out@ =~= shifted(samples@, offset as int));
    out
}

} // verus!
