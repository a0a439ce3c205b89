//! The exponential moving average of a series.

use vstd::prelude::*;
use vstd::arithmetic::div_mod::{
    lemma_div_is_ordered_by_denominator, lemma_fundamental_div_mod, lemma_mod_bound,
};
use crate::error::EngineError;
use crate::series::as_ints;

verus! {

/// One step of the recurrence: the previous average moves toward the sample by
/// the fraction `2 / (period + 1)` of their distance.
///
/// The distance moved is a whole number of ticks, rounded toward zero, so a
/// step up and the mirrored step down move by the same amount.
pub open spec fn ema_step(prev: int, sample: int, period: int) -> int {
    let distance = sample - prev;
    if distance >= 0 {
        prev + (2 * distance) / (period + 1)
    } else {
        prev - (2 * (-distance)) / (period + 1)
    }
}

/// The average at index `i`: the first sample is its own average, and each
/// later one is a step from the average before it.
pub open spec fn ema_at(samples: Seq<int>, period: int, i: int) -> int
    decreases i,
{
    if i <= 0 {
        samples[0]
    } else {
        ema_step(ema_at(samples, period, i - 1), samples[i], period)
    }
}

/// The averages of a whole series, one per sample.
pub open spec fn ema_series(samples: Seq<int>, period: int) -> Seq<int> {
    Seq::new(samples.len(), |i: int| ema_at(samples, period, i))
}

/// A step lands between the previous average and the sample.
pub proof fn lemma_ema_step_between(prev: int, sample: int, period: int)
    requires
        period >= 1,
    ensures
        prev <= sample ==> prev <= ema_step(prev, sample, period) <= sample,
        prev >= sample ==> sample <= ema_step(prev, sample, period) <= prev,
{
    let distance = if sample >= prev {
        sample - prev
    } else {
        prev - sample
    };
    let moved = (2 * distance) / (period + 1);
    assert(moved <= distance) by {
        lemma_div_is_ordered_by_denominator(2 * distance, 2, period + 1);
    }
    assert(moved >= 0) by (nonlinear_arith)
        requires
            distance >= 0,
            period >= 1,
            moved == (2 * distance) / (period + 1),
    ;
}

/// A step is the exact value `prev + 2 * (sample - prev) / (period + 1)` cut
/// to whole ticks on the side of `prev`. Stated without fractions: `period + 1`
/// times the step is less than `period + 1` away from `period + 1` times the
/// exact value.
pub proof fn lemma_ema_step_cuts_exact_value(prev: int, sample: int, period: int)
    requires
        period >= 1,
    ensures
        ({
            let exact = (period + 1) * prev + 2 * (sample - prev);
            let cut = (period + 1) * ema_step(prev, sample, period);
            &&& sample >= prev ==> exact - (period + 1) < cut <= exact
            &&& sample <= prev ==> exact <= cut < exact + (period + 1)
        }),
{
    let divisor = period + 1;
    let distance = if sample >= prev {
        sample - prev
    } else {
        prev - sample
    };
    let moved = (2 * distance) / divisor;
    lemma_fundamental_div_mod(2 * distance, divisor);
    lemma_mod_bound(2 * distance, divisor);
    assert(divisor * (prev + moved) == divisor * prev + divisor * moved) by (nonlinear_arith);
    assert(divisor * (prev - moved) == divisor * prev - divisor * moved) by (nonlinear_arith);
}

/// A step up and the mirrored step down move by the same amount.
pub proof fn lemma_ema_step_mirror(prev: int, sample: int, period: int)
    requires
        period >= 1,
    ensures
        ema_step(-prev, -sample, period) == -ema_step(prev, sample, period),
{
    assert(0int / (period + 1) == 0) by (nonlinear_arith)
        requires
            period >= 1,
    ;
}

/// The distance of a value from a target.
pub open spec fn gap(value: int, target: int) -> int {
    if value >= target {
        value - target
    } else {
        target - value
    }
}

/// A step never moves away from the sample, and it moves strictly closer
/// while the remaining gap is at least half of `period + 1`.
pub proof fn lemma_ema_step_closes_gap(prev: int, sample: int, period: int)
    requires
        period >= 1,
    ensures
        gap(ema_step(prev, sample, period), sample) <= gap(prev, sample),
        2 * gap(prev, sample) >= period + 1 ==> gap(ema_step(prev, sample, period), sample) < gap(
            prev,
            sample,
        ),
{
    lemma_ema_step_between(prev, sample, period);
    let distance = gap(prev, sample);
    if 2 * distance >= period + 1 {
        assert((2 * distance) / (period + 1) >= 1) by (nonlinear_arith)
            requires
                period >= 1,
                2 * distance >= period + 1,
        ;
    }
}

/// The first sample is its own average.
pub proof fn lemma_ema_seed(samples: Seq<int>, period: int)
    requires
        samples.len() >= 1,
    ensures
        ema_series(samples, period)[0] == samples[0],
{
}

/// The average of a single sample is that sample, whatever the period.
pub proof fn lemma_ema_of_single_sample(sample: int, period: int)
    ensures
        ema_series(seq![sample], period) == seq![sample],
{
    assert(ema_series(seq![sample], period) =~= seq![sample]);
}

/// The averages are as many as the samples.
pub proof fn lemma_ema_length(samples: Seq<int>, period: int)
    ensures
        ema_series(samples, period).len() == samples.len(),
{
}

/// Every average lies within the range of the samples seen so far.
pub proof fn lemma_ema_within_bounds(samples: Seq<int>, period: int, low: int, high: int, i: int)
    requires
        period >= 1,
        0 <= i < samples.len(),
        forall|j: int| 0 <= j <= i ==> low <= #[trigger] samples[j] <= high,
    ensures
        low <= ema_at(samples, period, i) <= high,
    decreases i,
{
    if i > 0 {
        lemma_ema_within_bounds(samples, period, low, high, i - 1);
        lemma_ema_step_between(ema_at(samples, period, i - 1), samples[i], period);
    }
}

/// The average of a constant series is that constant at every index: the
/// average starts at the value and has no gap left to close.
pub proof fn lemma_ema_of_constant(value: int, n: nat, period: int)
    requires
        period >= 1,
    ensures
        ema_series(Seq::new(n, |i: int| value), period) == Seq::new(n, |i: int| value),
{
    let samples = Seq::new(n, |i: int| value);
    assert forall|i: int| 0 <= i < n implies ema_at(samples, period, i) == value by {
        lemma_ema_within_bounds(samples, period, value, value, i);
    }
    assert(ema_series(samples, period) =~= samples);
}

/// While the samples stay at one value, the average's gap to that value never
/// grows from one index to the next, and it shrinks while it is at least half
/// of `period + 1`.
pub proof fn lemma_ema_approaches_level(samples: Seq<int>, period: int, i: int)
    requires
        period >= 1,
        1 <= i < samples.len(),
    ensures
        gap(ema_at(samples, period, i), samples[i]) <= gap(
            ema_at(samples, period, i - 1),
            samples[i],
        ),
        2 * gap(ema_at(samples, period, i - 1), samples[i]) >= period + 1 ==> gap(
            ema_at(samples, period, i),
            samples[i],
        ) < gap(ema_at(samples, period, i - 1), samples[i]),
{
    lemma_ema_step_closes_gap(ema_at(samples, period, i - 1), samples[i], period);
}

/// An average depends only on the samples up to its index.
pub proof fn lemma_ema_ignores_later_samples(a: Seq<int>, b: Seq<int>, period: int, i: int)
    requires
        0 <= i < a.len(),
        i < b.len(),
        forall|j: int| 0 <= j <= i ==> a[j] == b[j],
    ensures
        ema_at(a, period, i) == ema_at(b, period, i),
    decreases i,
{
    if i > 0 {
        lemma_ema_ignores_later_samples(a, b, period, i - 1);
    }
}

/// One more sample leaves the averages so far as they are and adds one step
/// from the last of them: updating sample by sample gives what recomputing
/// from the whole series gives.
pub proof fn lemma_ema_extends_by_one_step(samples: Seq<int>, sample: int, period: int)
    requires
        samples.len() >= 1,
    ensures
        ema_series(samples.push(sample), period) == ema_series(samples, period).push(
            ema_step(ema_series(samples, period).last(), sample, period),
        ),
{
    let longer = samples.push(sample);
    let n = samples.len() as int;
    assert forall|i: int| 0 <= i < n implies ema_at(longer, period, i) == ema_at(
        samples,
        period,
        i,
    ) by {
        lemma_ema_ignores_later_samples(longer, samples, period, i);
    }
    assert(ema_at(longer, period, n) == ema_step(
        ema_at(longer, period, n - 1),
        longer[n],
        period,
    ));
    assert(ema_series(longer, period) =~= ema_series(samples, period).push(
        ema_step(ema_series(samples, period).last(), sample, period),
    ));
}

fn ema_next(prev: i64, sample: i64, period: usize) -> (next: i64)
    requires
        period >= 1,
    ensures
        next as int == ema_step(prev as int, sample as int, period as int),
{
    proof {
        lemma_ema_step_between(prev as int, sample as int, period as int);
    }
    let divisor: i128 = period as i128 + 1;
    let distance: i128 = sample as i128 - prev as i128;
    if distance >= 0 {
        let moved: i128 = (2 * distance) / divisor;
        (prev as i128 + moved) as i64
    } else {
        let moved: i128 = (2 * (-distance)) / divisor;
        (prev as i128 - moved) as i64
    }
}

/// Computes the exponential moving average of `prices` for `period`.
///
/// Fails with `InvalidInput` exactly when `prices` is empty or `period` is zero.
pub fn calculate_ema(prices: &[i64], period: usize) -> (result: Result<Vec<i64>, EngineError>)
    ensures
        result is Err <==> prices.len() == 0 || period == 0,
        result matches Err(e) ==> e == EngineError::InvalidInput,
        result matches Ok(ema) ==> as_ints(ema@) == ema_series(as_ints(prices@), period as int),
{
    let n: usize = prices.len();
    if n == 0 || period == 0 {
        return Err(EngineError::InvalidInput);
    }
    let mut ema: Vec<i64> = Vec::with_capacity(n);
    ema.push(prices[0]);

    let mut i: usize = 1;
    while i < n
        invariant
            1 <= i <= n,
            n == prices.len(),
            period >= 1,
            ema.len() == i,
            forall|j: int|
                0 <= j < i ==> (#[trigger] ema[j]) as int == ema_at(
                    as_ints(prices@),
                    period as int,
                    j,
                ),
        decreases n - i,
    {
        let prev_ema: i64 = ema[i - 1];
        let next: i64 = ema_next(prev_ema, prices[i], period);
        ema.push(next);
        i += 1;
    }
    assert(as_ints(ema@) =~= ema_series(as_ints(prices@), period as int));
    Ok(ema)
}

} // verus!
