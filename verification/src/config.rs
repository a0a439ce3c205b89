//! The tracker's settings and their defaults.

use vstd::prelude::*;

verus! {

/// The default period of the fast moving average.
pub const DEFAULT_FAST_PERIOD: usize = 12;

/// The default period of the slow moving average.
pub const DEFAULT_SLOW_PERIOD: usize = 26;

/// The default period of the signal line.
pub const DEFAULT_SIGNAL_PERIOD: usize = 9;

/// The default number of samples kept per instrument.
pub const DEFAULT_CAPACITY: usize = 100;

/// The default number of samples an instrument needs before it is evaluated:
/// the slow period plus the signal period.
pub const DEFAULT_MIN_EVAL_LENGTH: usize = DEFAULT_SLOW_PERIOD + DEFAULT_SIGNAL_PERIOD;

/// The settings of a tracker.
///
/// `min_eval_length` is a policy, not a consequence of the arithmetic: the
/// lines exist from the first sample on, but their early values mostly reflect
/// the seed. A lower threshold reports crossings earlier and with more noise,
/// a higher one later and steadier.
#[derive(Debug, Clone, Copy, PartialEq, Eq, Structural)]
pub struct TrackerConfig {
    /// The period of the fast moving average.
    pub fast_period: usize,
    /// The period of the slow moving average.
    pub slow_period: usize,
    /// The period of the signal line.
    pub signal_period: usize,
    /// The number of samples kept per instrument.
    pub capacity: usize,
    /// The number of samples an instrument needs before it is evaluated.
    pub min_eval_length: usize,
}

impl TrackerConfig {
    /// The documented defaults: periods 12, 26 and 9, a window of 100 samples,
    /// evaluation from 35 samples on.
    pub open spec fn standard() -> TrackerConfig {
        TrackerConfig {
            fast_period: 12,
            slow_period: 26,
            signal_period: 9,
            capacity: 100,
            min_eval_length: 35,
        }
    }

    /// Settings under which every evaluation can succeed and some window is
    /// long enough to be evaluated: no period is zero, evaluation waits for at
    /// least two samples, and the window holds at least that many.
    pub open spec fn well_formed(self) -> bool {
        &&& self.fast_period >= 1
        &&& self.slow_period >= 1
        &&& self.signal_period >= 1
        &&& self.min_eval_length >= 2
        &&& self.capacity >= self.min_eval_length
    }

    /// Whether the settings are well formed.
    pub fn is_well_formed(&self) -> (ok: bool)
        ensures
            ok == self.well_formed(),
    {
        self.fast_period >= 1 && self.slow_period >= 1 && self.signal_period >= 1
            && self.min_eval_length >= 2 && self.capacity >= self.min_eval_length
    }
}

impl Default for TrackerConfig {
    fn default() -> (config: Self)
        ensures
            config == TrackerConfig::standard(),
            config.well_formed(),
    {
        TrackerConfig {
            fast_period: DEFAULT_FAST_PERIOD,
            slow_period: DEFAULT_SLOW_PERIOD,
            signal_period: DEFAULT_SIGNAL_PERIOD,
            capacity: DEFAULT_CAPACITY,
            min_eval_length: DEFAULT_MIN_EVAL_LENGTH,
        }
    }
}

} // verus!
