//! The stages chained: what happens before the resampler, and what after.

use crate::amplitude::{shifted, UNIT};
use crate::decode::{
    decode, decoded, decoded_scalar, is_scalar_value, lemma_decoded_complete, MINIMUM_SCALAR,
};
use crate::encode::{
    amplitude_of, centered_samples, encode, lemma_amplitude_of_bounds, lemma_centering_exact,
    padded, removed_mean, EncodedSignal,
};
use crate::fit::{
    fit_curve, fitted_curve, lemma_zero_tolerance_draws_from_template, MeanRestoration,
};
use crate::length::{even_ceiling, lemma_plan_unique, plan_lengths, plannable, LengthParameters};
use vstd::prelude::*;

verus! {

/// All that the resampler needs: the lengths and the encoded signal.
#[derive(Debug)]
pub struct Preparation {
    /// The planned lengths; the resampler is built with `transform_size` and
    /// asked for `target_length` samples.
    pub lengths: LengthParameters,
    /// The signal to resample, and the template to fit its result to.
    pub signal: EncodedSignal,
}

/// The text that a resampled curve turns into: the curve is recentred,
/// snapped to the template, moved up by the mean, and decoded.
pub open spec fn reconstructed(
    template: Seq<i64>,
    mean: i64,
    curve: Seq<i64>,
    tolerance: u64,
    order: MeanRestoration,
) -> Seq<char> {
    decoded(fitted_curve(curve, template, tolerance, mean, order))
}

/// A character, or a space in place of a control character.
pub open spec fn raised_to_space(c: char) -> char {
    if (c as u32) < MINIMUM_SCALAR {
        ' '
    } else {
        c
    }
}

/// Encodes the text and plans the lengths for its padded signal. `None`
/// exactly where no plan exists for them.
pub fn prepare(text: &str, requested_length: usize, minimum_floor: usize) -> (r: Option<
    Preparation,
>)
    ensures
        r is Some <==> plannable(
            even_ceiling(text@.len() as int),
            requested_length as int,
            minimum_floor as int,
        ),
        r is Some ==> {
            &&& r->0.signal.encodes(text@)
            &&& r->0.signal.wf()
            &&& r->0.lengths.wf()
            &&& r->0.lengths.original_length == even_ceiling(text@.len() as int)
            &&& r->0.lengths.target_length == even_ceiling(requested_length as int)
            &&& r->0.lengths.minimum_floor == minimum_floor
        },
{
    let signal = encode(text);
    match plan_lengths(signal.samples.len(), requested_length, minimum_floor) {
        Some(lengths) => Some(Preparation { lengths, signal }),
        None => None,
    }
}

/// Turns the resampled curve into text: recentres it, snaps it to the samples
/// of the signal under `tolerance`, restores the mean of the signal (after the
/// snapping or before it, as `order` says), and decodes the result.
pub fn reconstruct(
    signal: &EncodedSignal,
    curve: &[i64],
    tolerance: u64,
    order: MeanRestoration,
) -> (text: String)
    ensures
        text@ == reconstructed(signal.samples@, signal.mean, curve@, tolerance, order),
        text@.len() <= curve@.len(),
        forall|i: int| 0 <= i < text@.len() ==> text@[i] as u32 >= MINIMUM_SCALAR,
{
    let values = fit_curve(curve, signal.samples.as_slice(), tolerance, signal.mean, order);
    decode(values.as_slice())
}

/// Preparing is a function of its inputs: two preparations of the same
/// text for the same request and floor hold the same lengths, samples and
/// mean.
pub proof fn lemma_preparation_unique(
    a: Preparation,
    b: Preparation,
    text: Seq<char>,
    requested_length: usize,
    minimum_floor: usize,
)
    requires
        a.signal.encodes(text),
        b.signal.encodes(text),
        a.lengths.wf(),
        b.lengths.wf(),
        a.lengths.original_length == even_ceiling(text.len() as int),
        b.lengths.original_length == even_ceiling(text.len() as int),
        a.lengths.target_length == even_ceiling(requested_length as int),
        b.lengths.target_length == even_ceiling(requested_length as int),
        a.lengths.minimum_floor == minimum_floor,
        b.lengths.minimum_floor == minimum_floor,
    ensures
        a.lengths == b.lengths,
        a.signal.samples@ == b.signal.samples@,
        a.signal.mean == b.signal.mean,
{
    lemma_plan_unique(a.lengths, b.lengths);
}

/// Reconstructing is a function of its inputs: the same samples, mean, curve
/// and tolerance give the same text.
pub proof fn lemma_reconstruction_deterministic(
    first: EncodedSignal,
    second: EncodedSignal,
    curve: Seq<i64>,
    tolerance: u64,
    order: MeanRestoration,
)
    requires
        first.samples@ == second.samples@,
        first.mean == second.mean,
    ensures
        reconstructed(first.samples@, first.mean, curve, tolerance, order) == reconstructed(
            second.samples@,
            second.mean,
            curve,
            tolerance,
            order,
        ),
{
}

/// The amplitude of a character decodes to that character, or to a space
/// where it is a control character.
pub proof fn lemma_amplitude_decodes(c: char)
    ensures
        is_scalar_value(decoded_scalar(amplitude_of(c))),
        decoded_scalar(amplitude_of(c)) as char == raised_to_space(c),
{
    lemma_amplitude_of_bounds(c);
    let a = amplitude_of(c);
    assert(a == (c as int) * 65536);
    assert((a as int) / (UNIT as int) == c as int);
}

/// With tolerance zero, the text that comes back from a non-empty text holds
/// one character for every value of the curve, and each is a character of
/// the input (a space where that is a control character): whatever the
/// resampler made of the signal, and in either order of restoration, the
/// output draws on the input alone.
pub proof fn lemma_zero_tolerance_keeps_alphabet(
    text: Seq<char>,
    curve: Seq<i64>,
    order: MeanRestoration,
)
    requires
        text.len() > 0,
    ensures
        reconstructed(centered_samples(text), removed_mean(text) as i64, curve, 0, order).len()
            == curve.len(),
        forall|k: int|
            0 <= k < curve.len() ==> text.map_values(|c: char| raised_to_space(c)).contains(
                #[trigger] reconstructed(
                    centered_samples(text),
                    removed_mean(text) as i64,
                    curve,
                    0,
                    order,
                )[k],
            ),
{
    let template = centered_samples(text);
    let mean = removed_mean(text) as i64;
    let values = fitted_curve(curve, template, 0, mean, order);
    let alphabet = text.map_values(|c: char| raised_to_space(c));
    lemma_centering_exact(text);
    lemma_zero_tolerance_draws_from_template(curve, template, mean, order);
    assert forall|k: int| 0 <= k < values.len() implies is_scalar_value(
        decoded_scalar(#[trigger] values[k]),
    ) && alphabet.contains(decoded_scalar(values[k]) as char) by {
        let restored = shifted(template, mean as int);
        assert(restored.contains(values[k]));
        let j = choose|j: int| 0 <= j < restored.len() && restored[j] == values[k];
        let c = padded(text)[j];
        lemma_amplitude_of_bounds(c);
        assert(template[j] + removed_mean(text) == amplitude_of(c));
        assert(values[k] == amplitude_of(c));
        lemma_amplitude_decodes(c);
        let i = if j < text.len() {
            j
        } else {
            text.len() - 1
        };
        assert(text[i] == c);
        assert(alphabet[i] == raised_to_space(c));
    }
    lemma_decoded_complete(values);
}

} // verus!
