//! Fitting: snapping a resampled curve to the alphabet of a template.

use crate::amplitude::{lower, mean, mean_of, raise, saturate, shifted};
use vstd::prelude::*;

verus! {

/// The distance that [`get_nearest`] reports for an empty template: no
/// tolerance below it keeps a value.
pub const NO_DISTANCE: u64 = u64::MAX;

/// The absolute difference of two amplitudes.
pub open spec fn distance(a: i64, b: i64) -> int {
    if a >= b {
        a - b
    } else {
        b - a
    }
}

/// `i` is the first index of `template` whose entry is nearest to `value`:
/// no entry is nearer, and every earlier entry is farther.
pub open spec fn is_first_nearest(template: Seq<i64>, value: i64, i: int) -> bool {
    &&& 0 <= i < template.len()
    &&& forall|j: int|
        0 <= j < template.len() ==> distance(template[i], value) <= distance(
            #[trigger] template[j],
            value,
        )
    &&& forall|j: int|
        0 <= j < i ==> distance(#[trigger] template[j], value) > distance(template[i], value)
}

/// The first index of `template` whose entry is nearest to `value`.
pub open spec fn nearest_index(template: Seq<i64>, value: i64) -> int {
    choose|i: int| is_first_nearest(template, value, i)
}

/// The nearest entry of `template` to `value`, with its distance; zero and
/// [`NO_DISTANCE`] for an empty template.
pub open spec fn nearest(template: Seq<i64>, value: i64) -> (i64, int) {
    if template.len() == 0 {
        (0i64, NO_DISTANCE as int)
    } else {
        let entry = template[nearest_index(template, value)];
        (entry, distance(entry, value))
    }
}

/// What fitting makes of one value: its nearest template entry where that
/// entry is farther than `tolerance`, and the value itself otherwise.
pub open spec fn snapped(template: Seq<i64>, tolerance: u64, value: i64) -> i64 {
    let (entry, gap) = nearest(template, value);
    if gap > tolerance {
        entry
    } else {
        value
    }
}

/// The curve with every value snapped.
pub open spec fn fitted(curve: Seq<i64>, template: Seq<i64>, tolerance: u64) -> Seq<i64> {
    Seq::new(curve.len(), |k: int| snapped(template, tolerance, curve[k]))
}

/// The curve moved to zero mean.
pub open spec fn recentered(curve: Seq<i64>) -> Seq<i64> {
    shifted(curve, -mean(curve))
}

/// When the mean of the input goes back onto the curve.
#[derive(Clone, Copy, Debug, PartialEq, Eq, Structural)]
pub enum MeanRestoration {
    /// The curve is snapped to the centred template, then moved up.
    AfterFitting,
    /// The curve and the template are moved up, then the curve is snapped.
    BeforeFitting,
}

/// The whole fitting stage: the curve is recentred, snapped to the template,
/// and moved up by `offset`, the last two in the order that `order` names.
pub open spec fn fitted_curve(
    curve: Seq<i64>,
    template: Seq<i64>,
    tolerance: u64,
    offset: i64,
    order: MeanRestoration,
) -> Seq<i64> {
    match order {
        MeanRestoration::AfterFitting => shifted(
            fitted(recentered(curve), template, tolerance),
            offset as int,
        ),
        MeanRestoration::BeforeFitting => fitted(
            shifted(recentered(curve), offset as int),
            shifted(template, offset as int),
            tolerance,
        ),
    }
}

/// Moving every value of `samples` by `offset` leaves the range of an
/// amplitude nowhere: nothing saturates.
pub open spec fn shifts_exactly(samples: Seq<i64>, offset: int) -> bool {
    forall|i: int|
        0 <= i < samples.len() ==> i64::MIN <= #[trigger] samples[i] + offset <= i64::MAX
}

/// At most one index is the first nearest.
pub proof fn lemma_first_nearest_unique(template: Seq<i64>, value: i64, i: int, j: int)
    requires
        is_first_nearest(template, value, i),
        is_first_nearest(template, value, j),
    ensures
        i == j,
{
    if i < j {
        assert(distance(template[i], value) > distance(template[j], value));
        assert(distance(template[j], value) <= distance(template[i], value));
    } else if j < i {
        assert(distance(template[j], value) > distance(template[i], value));
        assert(distance(template[i], value) <= distance(template[j], value));
    }
}

/// A non-empty template has a first nearest entry, and `nearest_index` is it.
pub proof fn lemma_nearest_index(template: Seq<i64>, value: i64)
    requires
        template.len() > 0,
    ensures
        is_first_nearest(template, value, nearest_index(template, value)),
    decreases template.len(),
{
    if template.len() == 1 {
        assert(is_first_nearest(template, value, 0));
    } else {
        let front = template.drop_last();
        lemma_nearest_index(front, value);
        let i = nearest_index(front, value);
        let last = template.len() - 1;
        assert(forall|j: int| 0 <= j < front.len() ==> front[j] == template[j]);
        if distance(template[last], value) < distance(template[i], value) {
            assert forall|j: int| 0 <= j < template.len() implies distance(
                template[last],
                value,
            ) <= distance(#[trigger] template[j], value) by {
                if j < last {
                    assert(distance(front[i], value) <= distance(front[j], value));
                }
            }
            assert forall|j: int| 0 <= j < last implies distance(#[trigger] template[j], value)
                > distance(template[last], value) by {
                assert(distance(front[i], value) <= distance(front[j], value));
            }
            assert(is_first_nearest(template, value, last));
        } else {
            assert forall|j: int| 0 <= j < template.len() implies distance(template[i], value)
                <= distance(#[trigger] template[j], value) by {
                if j < last {
                    assert(distance(front[i], value) <= distance(front[j], value));
                }
            }
            assert forall|j: int| 0 <= j < i implies distance(#[trigger] template[j], value)
                > distance(template[i], value) by {
                assert(distance(front[j], value) > distance(front[i], value));
            }
            assert(is_first_nearest(template, value, i));
        }
    }
}

/// A snapped value is the value itself or an entry of the template; with
/// tolerance zero and a non-empty template it is always an entry.
pub proof fn lemma_snapped_from_template(template: Seq<i64>, tolerance: u64, value: i64)
    requires
        template.len() > 0,
    ensures
        snapped(template, tolerance, value) == value || snapped(template, tolerance, value)
            == template[nearest_index(template, value)],
        0 <= nearest_index(template, value) < template.len(),
        tolerance == 0 ==> snapped(template, tolerance, value) == template[nearest_index(
            template,
            value,
        )],
{
    lemma_nearest_index(template, value);
}

/// With tolerance zero and a non-empty template, every value that the
/// fitting stage puts out is an entry of the template moved up by the offset,
/// in either order of restoration: the output draws on the alphabet of the
/// template alone.
pub proof fn lemma_zero_tolerance_draws_from_template(
    curve: Seq<i64>,
    template: Seq<i64>,
    offset: i64,
    order: MeanRestoration,
)
    requires
        template.len() > 0,
    ensures
        fitted_curve(curve, template, 0, offset, order).len() == curve.len(),
        forall|k: int|
            0 <= k < curve.len() ==> shifted(template, offset as int).contains(
                #[trigger] fitted_curve(curve, template, 0, offset, order)[k],
            ),
{
    let centred = recentered(curve);
    let alphabet = shifted(template, offset as int);
    assert forall|k: int| 0 <= k < curve.len() implies alphabet.contains(
        #[trigger] fitted_curve(curve, template, 0, offset, order)[k],
    ) by {
        match order {
            MeanRestoration::AfterFitting => {
                lemma_snapped_from_template(template, 0, centred[k]);
                let j = nearest_index(template, centred[k]);
                assert(fitted(centred, template, 0)[k] == template[j]);
                assert(fitted_curve(curve, template, 0, offset, order)[k] == alphabet[j]);
            },
            MeanRestoration::BeforeFitting => {
                let value = shifted(centred, offset as int)[k];
                lemma_snapped_from_template(alphabet, 0, value);
                let j = nearest_index(alphabet, value);
                assert(fitted_curve(curve, template, 0, offset, order)[k] == alphabet[j]);
            },
        }
    }
}

/// Moving the template and the value by the same offset moves the snapped
/// value by that offset, where nothing saturates: distances do not change.
pub proof fn lemma_snapped_translation(template: Seq<i64>, tolerance: u64, value: i64, offset: int)
    requires
        template.len() > 0,
        shifts_exactly(template, offset),
        i64::MIN <= value + offset <= i64::MAX,
    ensures
        snapped(shifted(template, offset), tolerance, (value + offset) as i64) == snapped(
            template,
            tolerance,
            value,
        ) + offset,
{
    let moved = shifted(template, offset);
    let target = (value + offset) as i64;
    let i = nearest_index(template, value);
    lemma_nearest_index(template, value);
    assert forall|j: int| 0 <= j < template.len() implies distance(#[trigger] moved[j], target)
        == distance(template[j], value) by {
        assert(i64::MIN <= template[j] + offset <= i64::MAX);
    }
    assert(is_first_nearest(moved, target, i)) by {
        assert forall|j: int| 0 <= j < moved.len() implies distance(moved[i], target) <= distance(
            #[trigger] moved[j],
            target,
        ) by {
            assert(distance(template[i], value) <= distance(template[j], value));
        }
        assert forall|j: int| 0 <= j < i implies distance(#[trigger] moved[j], target) > distance(
            moved[i],
            target,
        ) by {
            assert(distance(template[j], value) > distance(template[i], value));
        }
    }
    lemma_nearest_index(moved, target);
    lemma_first_nearest_unique(moved, target, i, nearest_index(moved, target));
    assert(i64::MIN <= template[i] + offset <= i64::MAX);
}

/// The two orders of restoration give the same curve where the template is
/// not empty and moving it and the recentred curve up by the offset
/// saturates nowhere.
pub proof fn lemma_restoration_orders_agree(
    curve: Seq<i64>,
    template: Seq<i64>,
    tolerance: u64,
    offset: i64,
)
    requires
        template.len() > 0,
        shifts_exactly(template, offset as int),
        shifts_exactly(recentered(curve), offset as int),
    ensures
        fitted_curve(curve, template, tolerance, offset, MeanRestoration::AfterFitting)
            == fitted_curve(curve, template, tolerance, offset, MeanRestoration::BeforeFitting),
{
    let centred = recentered(curve);
    let after = fitted_curve(curve, template, tolerance, offset, MeanRestoration::AfterFitting);
    let before = fitted_curve(curve, template, tolerance, offset, MeanRestoration::BeforeFitting);
    assert forall|k: int| 0 <= k < curve.len() implies after[k] == before[k] by {
        assert(i64::MIN <= centred[k] + offset <= i64::MAX);
        lemma_snapped_translation(template, tolerance, centred[k], offset as int);
        lemma_snapped_from_template(template, tolerance, centred[k]);
        let j = nearest_index(template, centred[k]);
        assert(i64::MIN <= template[j] + offset <= i64::MAX);
        assert(after[k] == saturate(snapped(template, tolerance, centred[k]) + offset));
    }
    assert(after =~= before);
}

/// The absolute difference of two amplitudes.
pub fn distance_between(a: i64, b: i64) -> (d: u64)
    ensures
        d == distance(a, b),
{
    if a >= b {
        (a as i128 - b as i128) as u64
    } else {
        (b as i128 - a as i128) as u64
    }
}

/// Scans the whole template for the entry nearest to `value` and returns it
/// with its distance; of several entries at the same distance the first wins.
/// For an empty template the result is zero at [`NO_DISTANCE`].
pub fn get_nearest(value: i64, template: &[i64]) -> (r: (i64, u64))
    ensures
        r.0 == nearest(template@, value).0,
        r.1 == nearest(template@, value).1,
{
    let n: usize = template.len();
    if n == 0 {
        return (0, NO_DISTANCE);
    }
    let mut best: usize = 0;
    let mut gap: u64 = distance_between(template[0], value);
    let mut i: usize = 1;
    while i < n
        invariant
            1 <= i <= n,
            n == template@.len(),
            best < i,
            gap == distance(template@[best as int], value),
            forall|j: int| 0 <= j < i ==> gap <= distance(#[trigger] template@[j], value),
            forall|j: int| 0 <= j < best ==> distance(#[trigger] template@[j], value) > gap,
        decreases n - i,
    {
        let d: u64 = distance_between(template[i], value);
        if d < gap {
            best = i;
            gap = d;
        }
        i = i + 1;
    }
    proof {
        assert(is_first_nearest(template@, value, best as int));
        lemma_nearest_index(template@, value);
        lemma_first_nearest_unique(
            template@,
            value,
            best as int,
            nearest_index(template@, value),
        );
    }
    (template[best], gap)
}

/// Snaps every value of the curve that is farther than `tolerance` from its
/// nearest template entry to that entry; the other values stay.
pub fn fitting(curve: &[i64], template: &[i64], tolerance: u64) -> (out: Vec<i64>)
    ensures
        out@ == fitted(curve@, template@, tolerance),
        out@.len() == curve@.len(),
{
    let n: usize = curve.len();
    let mut out: Vec<i64> = Vec::with_capacity(n);
    let mut k: usize = 0;
    while k < n
        invariant
            k <= n,
            n == curve@.len(),
            out@.len() == k,
            forall|j: int| 0 <= j < k ==> out@[j] == snapped(template@, tolerance, curve@[j]),
        decreases n - k,
    {
        let value: i64 = curve[k];
        let (entry, gap) = get_nearest(value, template);
        if gap > tolerance {
            out.push(entry);
        } else {
            out.push(value);
        }
        k = k + 1;
    }
    assert(out@ =~= fitted(curve@, template@, tolerance));
    out
}

/// Moves the curve to zero mean.
pub fn recenter(curve: &[i64]) -> (out: Vec<i64>)
    ensures
        out@ == recentered(curve@),
        out@.len() == curve@.len(),
{
    lower(curve, mean_of(curve))
}

/// The fitting stage in one call: recentres `curve`, snaps it to `template`
/// under `tolerance`, and moves the result up by `offset`; `order` says
/// whether the move comes after the snapping or before it.
pub fn fit_curve(
    curve: &[i64],
    template: &[i64],
    tolerance: u64,
    offset: i64,
    order: MeanRestoration,
) -> (out: Vec<i64>)
    ensures
        out@ == fitted_curve(curve@, template@, tolerance, offset, order),
        out@.len() == curve@.len(),
{
    let centred = recenter(curve);
    match order {
        MeanRestoration::AfterFitting => {
            let fit = fitting(centred.as_slice(), template, tolerance);
            raise(fit.as_slice(), offset)
        },
        MeanRestoration::BeforeFitting => {
            let restored = raise(centred.as_slice(), offset);
            let alphabet = raise(template, offset);
            fitting(restored.as_slice(), alphabet.as_slice(), tolerance)
        },
    }
}

} // verus!
