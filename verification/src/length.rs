//! Length planning: the target sample count and the transform size.

use vstd::arithmetic::power2::{
    lemma2_to64, lemma_pow2_strictly_increases, lemma_pow2_unfold, pow2,
};
use vstd::prelude::*;

verus! {

/// The minimum transform size that the command-line tool asks for.
pub const DEFAULT_MINIMUM_FLOOR: usize = 4096;

/// The lengths that one run works with.
#[derive(Clone, Copy, Debug, PartialEq, Eq, Structural)]
pub struct LengthParameters {
    /// Number of samples of the (padded) input signal.
    pub original_length: usize,
    /// Number of samples asked of the resampler; always even.
    pub target_length: usize,
    /// Lower bound on the length that the transform must cover.
    pub minimum_floor: usize,
    /// The largest of the three lengths above.
    pub process_length: usize,
    /// The least power of two that is at least `process_length`.
    pub transform_size: usize,
}

/// `n` rounded up to the nearest even number: `n` plus its low bit.
pub open spec fn even_ceiling(n: int) -> int {
    n + n % 2
}

/// The largest of three lengths.
pub open spec fn max_of_three(a: int, b: int, c: int) -> int {
    if a >= b && a >= c {
        a
    } else if b >= c {
        b
    } else {
        c
    }
}

/// `n` is `2^k` for some natural `k`.
pub open spec fn is_power_of_two(n: int) -> bool {
    exists|k: nat| n == #[trigger] pow2(k)
}

/// `size` is the least power of two that is at least `length`.
pub open spec fn is_least_power_of_two(size: int, length: int) -> bool {
    &&& is_power_of_two(size)
    &&& size >= length
    &&& forall|p: int| is_power_of_two(p) && p >= length ==> size <= p
}

impl LengthParameters {
    /// The invariant of a plan: the target is even, the process length is the
    /// largest of the three lengths, and the transform size is the least power
    /// of two that covers it.
    pub open spec fn wf(self) -> bool {
        &&& self.target_length % 2 == 0
        &&& self.process_length == max_of_three(
            self.original_length as int,
            self.target_length as int,
            self.minimum_floor as int,
        )
        &&& is_least_power_of_two(self.transform_size as int, self.process_length as int)
    }
}

/// Powers of two grow with their exponent.
pub proof fn lemma_pow2_monotonic(j: nat, k: nat)
    requires
        j <= k,
    ensures
        pow2(j) <= pow2(k),
{
    if j < k {
        lemma_pow2_strictly_increases(j, k);
    }
}

/// No power of two lies strictly between `2^k` and `2^(k+1)`: one that is
/// greater than `2^k` is at least `2^(k+1)`.
pub proof fn lemma_next_power_of_two(k: nat, p: int)
    requires
        is_power_of_two(p),
        p > pow2(k),
    ensures
        p >= pow2(k + 1),
{
    let j = choose|j: nat| p == #[trigger] pow2(j);
    if j <= k {
        lemma_pow2_monotonic(j, k);
    } else {
        lemma_pow2_monotonic(k + 1, j);
    }
}

/// The least power of two at least `length` is unique.
pub proof fn lemma_least_power_of_two_unique(a: int, b: int, length: int)
    requires
        is_least_power_of_two(a, length),
        is_least_power_of_two(b, length),
    ensures
        a == b,
{
}

/// Two plans for the same original length, target and floor are the same
/// plan: the invariant leaves no choice.
pub proof fn lemma_plan_unique(a: LengthParameters, b: LengthParameters)
    requires
        a.wf(),
        b.wf(),
        a.original_length == b.original_length,
        a.target_length == b.target_length,
        a.minimum_floor == b.minimum_floor,
    ensures
        a == b,
{
    lemma_least_power_of_two_unique(
        a.transform_size as int,
        b.transform_size as int,
        a.process_length as int,
    );
}

/// The even ceiling of a length is even, at least the length, and at most
/// one more.
pub proof fn lemma_even_ceiling(n: int)
    requires
        n >= 0,
    ensures
        even_ceiling(n) % 2 == 0,
        n <= even_ceiling(n) <= n + 1,
        n % 2 == 0 ==> even_ceiling(n) == n,
{
}

/// Rounds `n` up to the nearest even number, or gives `None` where that
/// number does not fit in `usize`.
pub fn round_up_even(n: usize) -> (r: Option<usize>)
    ensures
        r is Some <==> even_ceiling(n as int) <= usize::MAX,
        r is Some ==> r->0 == even_ceiling(n as int),
{
    n.checked_add(n % 2)
}

/// The length that the transform must cover: the largest of the three.
pub fn process_length(original_length: usize, target_length: usize, minimum_floor: usize) -> (r:
    usize)
    ensures
        r == max_of_three(original_length as int, target_length as int, minimum_floor as int),
{
    let mut r: usize = original_length;
    if target_length > r {
        r = target_length;
    }
    if minimum_floor > r {
        r = minimum_floor;
    }
    r
}

/// The least power of two that is at least `length`, found by doubling from
/// one; `None` where no such power of two fits in `usize`.
pub fn transform_size(length: usize) -> (r: Option<usize>)
    ensures
        r is Some ==> is_least_power_of_two(r->0 as int, length as int),
        r is None <==> forall|p: int| is_power_of_two(p) && p >= length ==> p > usize::MAX,
{
    let mut size: usize = 1;
    let ghost mut k: nat = 0;
    proof {
        lemma2_to64();
    }
    while size < length
        invariant
            size >= 1,
            size == pow2(k),
            k > 0 ==> pow2((k - 1) as nat) < length,
        decreases usize::MAX - size,
    {
        if size > usize::MAX / 2 {
            proof {
                lemma_pow2_unfold(k + 1);
                assert forall|p: int| is_power_of_two(p) && p >= length implies p > usize::MAX by {
                    lemma_next_power_of_two(k, p);
                }
            }
            return None;
        }
        proof {
            lemma_pow2_unfold(k + 1);
            k = k + 1;
        }
        size = size * 2;
    }
    proof {
        assert(is_power_of_two(size as int));
        assert forall|p: int| is_power_of_two(p) && p >= length implies size <= p by {
            let j = choose|j: nat| p == #[trigger] pow2(j);
            if k > 0 {
                lemma_next_power_of_two((k - 1) as nat, p);
            } else {
                lemma_pow2_monotonic(0, j);
            }
        }
    }
    Some(size)
}

/// A plan exists for these lengths: the even target and a power of two that
/// covers the process length both fit in `usize`.
pub open spec fn plannable(original_length: int, requested_length: int, minimum_floor: int) -> bool {
    &&& even_ceiling(requested_length) <= usize::MAX
    &&& exists|p: int|
        #[trigger] is_power_of_two(p) && p <= usize::MAX && p >= max_of_three(
            original_length,
            even_ceiling(requested_length),
            minimum_floor,
        )
}

/// Plans one run: the target is `requested_length` rounded up to even, the
/// process length is the largest of the original length, the target and the
/// floor, and the transform size is the least power of two that covers it.
/// `None` exactly where one of them does not fit in `usize`.
pub fn plan_lengths(original_length: usize, requested_length: usize, minimum_floor: usize) -> (r:
    Option<LengthParameters>)
    ensures
        r is Some <==> plannable(
            original_length as int,
            requested_length as int,
            minimum_floor as int,
        ),
        r is Some ==> {
            &&& r->0.wf()
            &&& r->0.original_length == original_length
            &&& r->0.target_length == even_ceiling(requested_length as int)
            &&& r->0.minimum_floor == minimum_floor
        },
{
    let target_length = match round_up_even(requested_length) {
        Some(t) => t,
        None => {
            return None;
        },
    };
    let process_length = process_length(original_length, target_length, minimum_floor);
    match transform_size(process_length) {
        Some(transform_size) => {
            assert(is_power_of_two(transform_size as int));
            Some(
                LengthParameters {
                    original_length,
                    target_length,
                    minimum_floor,
                    process_length,
                    transform_size,
                },
            )
        },
        None => None,
    }
}

} // verus!
