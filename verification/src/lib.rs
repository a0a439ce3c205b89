//! A MACD crossover engine over integer price ticks.
//!
//! Prices arrive one at a time per instrument. The tracker keeps a bounded
//! window of the latest samples for each instrument, derives the MACD line and
//! its signal line from the window, and reports when the one crosses the other.
//!
//! A price is a whole number of ticks; what a tick is worth is the caller's
//! choice and never enters the arithmetic. Every moving-average step rounds
//! the distance it moves toward zero, so averages are whole ticks too, less than
//! one tick per step short of the exact value. All of it is integer
//! arithmetic: the same samples give the same lines and the same events on
//! every machine.
//!
//! The parts, from the leaves up:
//! - [`ema`]: the exponential moving average of a series;
//! - [`macd`]: the MACD line and its signal line;
//! - [`signal`]: crossover detection on the last two points of the lines;
//! - [`history`]: the bounded window of one instrument;
//! - [`tracker`]: one window per instrument, evaluated sample by sample;
//! - [`config`]: the tracker's settings and their defaults.

pub mod config;
pub mod ema;
pub mod error;
pub mod history;
pub mod macd;
pub mod series;
pub mod signal;
pub mod tracker;

pub use crate::config::TrackerConfig;
pub use crate::ema::calculate_ema;
pub use crate::error::EngineError;
pub use crate::history::PriceHistory;
pub use crate::macd::calculate_macd;
pub use crate::signal::{check_macd_signal, CrossoverEvent};
pub use crate::tracker::{evaluate, InstrumentTracker};
