//! Encoding: from text to an even-length, zero-mean sample sequence.

use crate::amplitude::{lemma_mean_between, lower, mean, mean_of, shifted, UNIT};
use crate::length::even_ceiling;
use vstd::prelude::*;
use vstd::string::axiom_spec_iter;

verus! {

/// The amplitude of one character: its scalar value in whole steps.
pub open spec fn amplitude_of(c: char) -> i64 {
    ((c as int) * UNIT) as i64
}

/// The text with its last character doubled where its length is odd.
pub open spec fn padded(text: Seq<char>) -> Seq<char> {
    if text.len() % 2 == 1 {
        text.push(text.last())
    } else {
        text
    }
}

/// The amplitudes of the padded text, before the mean is removed.
pub open spec fn raw_samples(text: Seq<char>) -> Seq<i64> {
    padded(text).map_values(|c: char| amplitude_of(c))
}

/// The mean that encoding removes.
pub open spec fn removed_mean(text: Seq<char>) -> int {
    mean(raw_samples(text))
}

/// The samples of the text: the amplitudes of the padded text, moved down by
/// their mean.
pub open spec fn centered_samples(text: Seq<char>) -> Seq<i64> {
    shifted(raw_samples(text), -removed_mean(text))
}

/// A text as a signal: its centred samples and the mean taken from them.
#[derive(Debug)]
pub struct EncodedSignal {
    /// The samples, moved to zero mean; their number is even.
    pub samples: Vec<i64>,
    /// The mean that was removed from every sample.
    pub mean: i64,
}

impl EncodedSignal {
    /// The invariant of a signal: the number of its samples is even.
    pub open spec fn wf(self) -> bool {
        self.samples@.len() % 2 == 0
    }

    /// This signal is the encoding of `text`.
    pub open spec fn encodes(self, text: Seq<char>) -> bool {
        &&& self.samples@ == centered_samples(text)
        &&& self.mean == removed_mean(text)
    }
}

/// The largest amplitude of a character.
pub open spec fn amplitude_limit() -> int {
    0x10FFFF * UNIT
}

/// The amplitude of a character is at least zero and at most the limit.
pub proof fn lemma_amplitude_of_bounds(c: char)
    ensures
        0 <= amplitude_of(c) <= amplitude_limit(),
        amplitude_of(c) == (c as int) * UNIT,
{
}

/// Centring loses nothing: the mean of a text lies within the amplitudes of
/// its characters, and a sample plus the mean is again the amplitude of its
/// character.
pub proof fn lemma_centering_exact(text: Seq<char>)
    ensures
        0 <= removed_mean(text) <= amplitude_limit(),
        centered_samples(text).len() == padded(text).len(),
        forall|i: int|
            0 <= i < padded(text).len() ==> #[trigger] centered_samples(text)[i] + removed_mean(
                text,
            ) == amplitude_of(padded(text)[i]),
{
    let raw = raw_samples(text);
    assert forall|i: int| 0 <= i < raw.len() implies 0 <= #[trigger] raw[i] <= amplitude_limit() by {
        lemma_amplitude_of_bounds(padded(text)[i]);
    }
    if raw.len() > 0 {
        lemma_mean_between(raw, 0, amplitude_limit());
    }
}

/// The amplitude of one character.
pub fn amplitude(c: char) -> (a: i64)
    ensures
        a == amplitude_of(c),
        0 <= a <= 0x10FFFF * UNIT,
{
    let scalar: u32 = c as u32;
    scalar as i64 * UNIT
}

/// The amplitudes of a text in order, one per character.
pub fn amplitudes(text: &str) -> (out: Vec<i64>)
    ensures
        out@ == text@.map_values(|c: char| amplitude_of(c)),
{
    broadcast use axiom_spec_iter;

    let mut out: Vec<i64> = Vec::new();
    let chars = text.chars();
    for c in it: chars
        invariant
            it.seq() == text@,
            out@.len() == it.index(),
            forall|j: int| 0 <= j < out@.len() ==> out@[j] == amplitude_of(text@[j]),
    {
        out.push(amplitude(c));
    }
    assert(out@ =~= text@.map_values(|c: char| amplitude_of(c)));
    out
}

/// Encodes a text: one sample per character, the last character doubled
/// where their number is odd, every sample moved down by the mean of all.
pub fn encode(text: &str) -> (signal: EncodedSignal)
    ensures
        signal.encodes(text@),
        signal.wf(),
        signal.samples@.len() == even_ceiling(text@.len() as int),
        text@.len() % 2 == 1 ==> signal.samples@[text@.len() as int] == signal.samples@[text@.len()
            - 1],
        forall|i: int|
            0 <= i < signal.samples@.len() ==> #[trigger] signal.samples@[i] + signal.mean
                == amplitude_of(padded(text@)[i]),
{
    let mut raw = amplitudes(text);
    let n: usize = raw.len();
    if n % 2 == 1 {
        let last: i64 = raw[n - 1];
        raw.push(last);
    }
    assert(raw@ =~= raw_samples(text@));
    let mean = mean_of(raw.as_slice());
    let samples = lower(raw.as_slice(), mean);
    proof {
        lemma_centering_exact(text@);
    }
    EncodedSignal { samples, mean }
}

} // verus!
