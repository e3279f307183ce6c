//! Decoding: from final amplitudes back to text.

use crate::amplitude::UNIT;
use vstd::prelude::*;

verus! {

/// The least scalar value that decoding produces: the space character.
pub const MINIMUM_SCALAR: u32 = 0x20;

/// `u` is a Unicode scalar value: a code point that is no surrogate.
pub open spec fn is_scalar_value(u: int) -> bool {
    0 <= u <= 0xD7FF || 0xE000 <= u <= 0x10FFFF
}

/// The whole part of an amplitude as an unsigned 32-bit number: zero for a
/// negative amplitude, the largest such number for one beyond it.
pub open spec fn truncated(value: i64) -> int {
    if value < 0 {
        0
    } else if (value as int) / (UNIT as int) > u32::MAX {
        u32::MAX as int
    } else {
        (value as int) / (UNIT as int)
    }
}

/// The number that an amplitude decodes to: its whole part, raised to
/// [`MINIMUM_SCALAR`] where it is less.
pub open spec fn decoded_scalar(value: i64) -> int {
    if truncated(value) < MINIMUM_SCALAR {
        MINIMUM_SCALAR as int
    } else {
        truncated(value)
    }
}

/// The text that the values decode to: in order, the character of every
/// value whose number is a scalar value; the other values leave no trace.
pub open spec fn decoded(values: Seq<i64>) -> Seq<char>
    decreases values.len(),
{
    if values.len() == 0 {
        Seq::empty()
    } else {
        let front = decoded(values.drop_last());
        let u = decoded_scalar(values.last());
        if is_scalar_value(u) {
            front.push(u as char)
        } else {
            front
        }
    }
}

/// `char::from_u32` of the standard library: the character with scalar value
/// `i`, and `None` exactly where `i` is a surrogate or beyond `0x10FFFF`.
pub assume_specification[ char::from_u32 ](i: u32) -> (r: Option<char>)
    ensures
        is_scalar_value(i as int) ==> r == Some(i as char),
        !is_scalar_value(i as int) ==> r is None,
;

/// `String::push` of the standard library: appends one character.
pub assume_specification[ String::push ](s: &mut String, ch: char)
    ensures
        final(s)@ == old(s)@.push(ch),
;

/// No decoded character is a control character: each is a space or above.
pub proof fn lemma_decoded_at_least_space(values: Seq<i64>)
    ensures
        forall|i: int| 0 <= i < decoded(values).len() ==> decoded(values)[i] as u32 >= MINIMUM_SCALAR,
    decreases values.len(),
{
    if values.len() > 0 {
        let front = decoded(values.drop_last());
        let u = decoded_scalar(values.last());
        lemma_decoded_at_least_space(values.drop_last());
        if is_scalar_value(u) {
            assert((u as char) as u32 == u);
            assert forall|i: int| 0 <= i < decoded(values).len() implies decoded(values)[i] as u32
                >= MINIMUM_SCALAR by {
                if i < front.len() {
                    assert(decoded(values)[i] == front[i]);
                }
            }
        }
    }
}

/// No more characters come out than values went in.
pub proof fn lemma_decoded_length(values: Seq<i64>)
    ensures
        decoded(values).len() <= values.len(),
    decreases values.len(),
{
    if values.len() > 0 {
        lemma_decoded_length(values.drop_last());
    }
}

/// Where every value decodes to a scalar value, every value leaves its
/// character: nothing is dropped.
pub proof fn lemma_decoded_complete(values: Seq<i64>)
    requires
        forall|k: int|
            0 <= k < values.len() ==> is_scalar_value(decoded_scalar(#[trigger] values[k])),
    ensures
        decoded(values).len() == values.len(),
        forall|k: int|
            0 <= k < values.len() ==> #[trigger] decoded(values)[k] == decoded_scalar(
                values[k],
            ) as char,
    decreases values.len(),
{
    if values.len() > 0 {
        let front = values.drop_last();
        assert forall|k: int| 0 <= k < front.len() implies is_scalar_value(
            decoded_scalar(#[trigger] front[k]),
        ) by {
            assert(front[k] == values[k]);
        }
        lemma_decoded_complete(front);
        assert(is_scalar_value(decoded_scalar(values[values.len() - 1])));
        assert forall|k: int| 0 <= k < values.len() implies #[trigger] decoded(values)[k]
            == decoded_scalar(values[k]) as char by {
            if k < front.len() {
                assert(decoded(values)[k] == decoded(front)[k]);
                assert(front[k] == values[k]);
            }
        }
    }
}

/// The number that one amplitude decodes to.
pub fn scalar_of(value: i64) -> (u: u32)
    ensures
        u == decoded_scalar(value),
{
    let whole: i64 = if value < 0 {
        0
    } else {
        value / UNIT
    };
    let u: u32 = if whole > u32::MAX as i64 {
        u32::MAX
    } else {
        whole as u32
    };
    if u < MINIMUM_SCALAR {
        MINIMUM_SCALAR
    } else {
        u
    }
}

/// Decodes the final amplitudes: each is cut to its whole part, raised to a
/// space where it is less, and kept where the result is a scalar value.
pub fn decode(values: &[i64]) -> (text: String)
    ensures
        text@ == decoded(values@),
        text@.len() <= values@.len(),
        forall|i: int| 0 <= i < text@.len() ==> text@[i] as u32 >= MINIMUM_SCALAR,
{
    let n: usize = values.len();
    let mut text = String::new();
    let mut k: usize = 0;
    while k < n
        invariant
            k <= n,
            n == values@.len(),
            text@ == decoded(values@.take(k as int)),
        decreases n - k,
    {
        proof {
            assert(values@.take(k + 1).drop_last() =~= values@.take(k as int));
        }
        match char::from_u32(scalar_of(values[k])) {
            Some(c) => {
                text.push(c);
            },
            None => {},
        }
        k = k + 1;
    }
    proof {
        assert(values@.take(n as int) =~= values@);
        lemma_decoded_at_least_space(values@);
        lemma_decoded_length(values@);
    }
    text
}

} // verus!
