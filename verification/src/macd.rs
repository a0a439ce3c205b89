//! The MACD line and its signal line.

use vstd::prelude::*;
use crate::ema::{calculate_ema, ema_at, ema_series, lemma_ema_within_bounds};
use crate::error::EngineError;
use crate::series::{all_fit_i64, as_ints, fits_i64};

verus! {

/// The MACD line: at every index, the fast average minus the slow average.
pub open spec fn macd_line(prices: Seq<int>, fast: int, slow: int) -> Seq<int> {
    Seq::new(prices.len(), |i: int| ema_at(prices, fast, i) - ema_at(prices, slow, i))
}

/// The signal line: the moving average of the MACD line.
pub open spec fn signal_line(prices: Seq<int>, fast: int, slow: int, signal: int) -> Seq<int> {
    ema_series(macd_line(prices, fast, slow), signal)
}

/// Why a derivation is refused, if it is: an empty series or a zero period is
/// invalid input; a MACD value outside the 64-bit range is an overflow.
pub open spec fn macd_refusal(prices: Seq<int>, fast: int, slow: int, signal: int) -> Option<
    EngineError,
> {
    if prices.len() == 0 || fast < 1 || slow < 1 || signal < 1 {
        Some(EngineError::InvalidInput)
    } else if !all_fit_i64(macd_line(prices, fast, slow)) {
        Some(EngineError::Overflow)
    } else {
        None
    }
}

/// Both lines are as long as the series they are derived from.
pub proof fn lemma_macd_lengths(prices: Seq<int>, fast: int, slow: int, signal: int)
    ensures
        macd_line(prices, fast, slow).len() == prices.len(),
        signal_line(prices, fast, slow, signal).len() == prices.len(),
{
}

/// No MACD value is larger in size than the spread of the prices: both
/// averages lie within the range of the prices, so their difference does too.
pub proof fn lemma_macd_within_spread(prices: Seq<int>, fast: int, slow: int, low: int, high: int)
    requires
        fast >= 1,
        slow >= 1,
        forall|j: int| 0 <= j < prices.len() ==> low <= #[trigger] prices[j] <= high,
    ensures
        forall|i: int|
            0 <= i < prices.len() ==> low - high <= #[trigger] macd_line(prices, fast, slow)[i]
                <= high - low,
{
    assert forall|i: int| 0 <= i < prices.len() implies low - high <= #[trigger] macd_line(
        prices,
        fast,
        slow,
    )[i] <= high - low by {
        lemma_ema_within_bounds(prices, fast, low, high, i);
        lemma_ema_within_bounds(prices, slow, low, high, i);
    }
}

/// Prices that are never negative are never refused for overflow: a
/// derivation with valid periods over such a non-empty series succeeds.
pub proof fn lemma_macd_of_nonnegative_prices(prices: Seq<i64>, fast: int, slow: int, signal: int)
    requires
        prices.len() >= 1,
        fast >= 1,
        slow >= 1,
        signal >= 1,
        forall|j: int| 0 <= j < prices.len() ==> #[trigger] prices[j] >= 0,
    ensures
        macd_refusal(as_ints(prices), fast, slow, signal) is None,
{
    let lifted = as_ints(prices);
    assert forall|j: int| 0 <= j < lifted.len() implies 0 <= #[trigger] lifted[j] <= i64::MAX by {
        assert(lifted[j] == prices[j] as int);
    }
    lemma_macd_within_spread(lifted, fast, slow, 0, i64::MAX as int);
    assert(all_fit_i64(macd_line(lifted, fast, slow)));
}

/// Derives the MACD line and the signal line of `prices`.
///
/// Returns `(macd_line, signal_line)`, each as long as `prices`.
pub fn calculate_macd(prices: &[i64], fast: usize, slow: usize, signal: usize) -> (result: Result<
    (Vec<i64>, Vec<i64>),
    EngineError,
>)
    ensures
        match result {
            Ok((macd, sig)) => {
                &&& macd_refusal(as_ints(prices@), fast as int, slow as int, signal as int) is None
                &&& as_ints(macd@) == macd_line(as_ints(prices@), fast as int, slow as int)
                &&& as_ints(sig@) == signal_line(
                    as_ints(prices@),
                    fast as int,
                    slow as int,
                    signal as int,
                )
            },
            Err(e) => macd_refusal(as_ints(prices@), fast as int, slow as int, signal as int)
                == Some(e),
        },
{
    if signal == 0 {
        return Err(EngineError::InvalidInput);
    }
    let ema_fast: Vec<i64> = match calculate_ema(prices, fast) {
        Ok(series) => series,
        Err(e) => {
            return Err(e);
        },
    };
    let ema_slow: Vec<i64> = match calculate_ema(prices, slow) {
        Ok(series) => series,
        Err(e) => {
            return Err(e);
        },
    };
    let ghost model = macd_line(as_ints(prices@), fast as int, slow as int);
    let n: usize = prices.len();
    assert(ema_fast.len() == n && ema_slow.len() == n) by {
        assert(as_ints(ema_fast@).len() == n);
        assert(as_ints(ema_slow@).len() == n);
    }

    let mut macd: Vec<i64> = Vec::with_capacity(n);
    let mut i: usize = 0;
    while i < n
        invariant
            i <= n,
            n == prices.len(),
            n >= 1,
            fast >= 1,
            slow >= 1,
            signal >= 1,
            ema_fast.len() == n,
            ema_slow.len() == n,
            model == macd_line(as_ints(prices@), fast as int, slow as int),
            as_ints(ema_fast@) == ema_series(as_ints(prices@), fast as int),
            as_ints(ema_slow@) == ema_series(as_ints(prices@), slow as int),
            macd.len() == i,
            forall|j: int| 0 <= j < i ==> (#[trigger] macd[j]) as int == model[j],
        decreases n - i,
    {
        let difference: i128 = ema_fast[i] as i128 - ema_slow[i] as i128;
        proof {
            assert(as_ints(ema_fast@)[i as int] == ema_fast[i as int] as int);
            assert(as_ints(ema_slow@)[i as int] == ema_slow[i as int] as int);
        }
        if difference < i64::MIN as i128 || difference > i64::MAX as i128 {
            assert(!fits_i64(model[i as int]));
            return Err(EngineError::Overflow);
        }
        macd.push(difference as i64);
        i += 1;
    }
    assert(as_ints(macd@) =~= model);
    assert(all_fit_i64(model)) by {
        assert forall|j: int| 0 <= j < model.len() implies fits_i64(#[trigger] model[j]) by {
            assert(macd[j] as int == model[j]);
        }
    }

    match calculate_ema(macd.as_slice(), signal) {
        Ok(sig) => Ok((macd, sig)),
        Err(e) => Err(e),
    }
}

} // verus!
