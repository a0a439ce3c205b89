//! Crossover detection on the last two points of a MACD line and its signal line.

use vstd::prelude::*;
use crate::error::EngineError;
use crate::series::as_ints;

verus! {

/// The outcome of one evaluation.
#[derive(Debug, Clone, Copy, PartialEq, Eq, Structural)]
pub enum CrossoverEvent {
    /// The MACD line crossed above the signal line.
    Buy,
    /// The MACD line crossed below the signal line.
    Sell,
    /// No crossing at this point.
    Hold,
}

impl CrossoverEvent {
    /// The event with buying and selling exchanged.
    pub open spec fn opposite(self) -> CrossoverEvent {
        match self {
            CrossoverEvent::Buy => CrossoverEvent::Sell,
            CrossoverEvent::Sell => CrossoverEvent::Buy,
            CrossoverEvent::Hold => CrossoverEvent::Hold,
        }
    }

    /// The name of the order the event calls for: `"buy"`, `"sell"`, or none.
    pub fn action(&self) -> (name: Option<&'static str>)
        ensures
            match *self {
                CrossoverEvent::Buy => name matches Some(text) && text@ == "buy"@,
                CrossoverEvent::Sell => name matches Some(text) && text@ == "sell"@,
                CrossoverEvent::Hold => name is None,
            },
    {
        match self {
            CrossoverEvent::Buy => Some("buy"),
            CrossoverEvent::Sell => Some("sell"),
            CrossoverEvent::Hold => None,
        }
    }
}

/// The event for one pair of consecutive points.
///
/// The previous point admits equality, the current one must be strictly across:
/// a crossing is registered at the first point where it is unambiguous.
pub open spec fn crossover(macd_prev: int, macd_last: int, signal_prev: int, signal_last: int)
    -> CrossoverEvent
{
    if macd_prev <= signal_prev && macd_last > signal_last {
        CrossoverEvent::Buy
    } else if macd_prev >= signal_prev && macd_last < signal_last {
        CrossoverEvent::Sell
    } else {
        CrossoverEvent::Hold
    }
}

/// What the detector answers for two lines: an error unless both have the same
/// length of at least two, else the event at their last two points.
pub open spec fn detect_crossover(macd: Seq<int>, signal: Seq<int>) -> Result<
    CrossoverEvent,
    EngineError,
> {
    if macd.len() < 2 || signal.len() < 2 || macd.len() != signal.len() {
        Err(EngineError::InvalidInput)
    } else {
        let n = macd.len() as int;
        Ok(crossover(macd[n - 2], macd[n - 1], signal[n - 2], signal[n - 1]))
    }
}

/// Buying and selling are mirror images: with every value negated, a crossing
/// upward becomes a crossing downward and the reverse.
pub proof fn lemma_crossover_mirror(
    macd_prev: int,
    macd_last: int,
    signal_prev: int,
    signal_last: int,
)
    ensures
        crossover(-macd_prev, -macd_last, -signal_prev, -signal_last) == crossover(
            macd_prev,
            macd_last,
            signal_prev,
            signal_last,
        ).opposite(),
{
}

/// A crossing needs the lines strictly apart at the current point: where they
/// meet there, no event is given.
pub proof fn lemma_no_event_where_lines_meet(macd_prev: int, signal_prev: int, level: int)
    ensures
        crossover(macd_prev, level, signal_prev, level) == CrossoverEvent::Hold,
{
}

/// Classifies the last two points of `macd_line` against `signal_line`.
pub fn check_macd_signal(macd_line: &[i64], signal_line: &[i64]) -> (result: Result<
    CrossoverEvent,
    EngineError,
>)
    ensures
        result == detect_crossover(as_ints(macd_line@), as_ints(signal_line@)),
{
    let n: usize = macd_line.len();
    if n < 2 || signal_line.len() != n {
        return Err(EngineError::InvalidInput);
    }
    let macd_last: i64 = macd_line[n - 1];
    let macd_prev: i64 = macd_line[n - 2];

    let signal_last: i64 = signal_line[n - 1];
    let signal_prev: i64 = signal_line[n - 2];

    if macd_prev <= signal_prev && macd_last > signal_last {
        Ok(CrossoverEvent::Buy)
    } else if macd_prev >= signal_prev && macd_last < signal_last {
        Ok(CrossoverEvent::Sell)
    } else {
        Ok(CrossoverEvent::Hold)
    }
}

} // verus!
