//! The errors the engine reports.

use vstd::prelude::*;

verus! {

/// Why the engine refused a computation.
///
/// The engine never aborts on bad input; every refusal is one of these values.
#[derive(Debug, Clone, Copy, PartialEq, Eq, Structural)]
pub enum EngineError {
    /// An empty series, a period of zero, or MACD and signal lines that are
    /// shorter than two points or differ in length.
    InvalidInput,
    /// A MACD value (fast EMA minus slow EMA) does not fit in 64 signed bits.
    Overflow,
}

} // verus!
