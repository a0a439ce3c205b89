//! The tracker: one bounded history per instrument, evaluated sample by sample.

use vstd::prelude::*;
use vstd::hash_map::StringHashMap;
use crate::config::TrackerConfig;
use crate::error::EngineError;
use crate::history::{
    latest, lemma_window_keeps_latest, window_extend, window_push, PriceHistory,
};
use crate::macd::{
    calculate_macd, lemma_macd_of_nonnegative_prices, macd_line, macd_refusal, signal_line,
};
use crate::series::as_ints;
use crate::signal::{check_macd_signal, detect_crossover, CrossoverEvent};

verus! {

/// What a window of samples evaluates to under `config`.
///
/// A window shorter than `min_eval_length` gives no event, whatever it holds.
/// A longer one gives the crossover at its last two points, or the reason why
/// its lines cannot be derived or compared.
pub open spec fn evaluation(history: Seq<int>, config: TrackerConfig) -> Result<
    CrossoverEvent,
    EngineError,
> {
    let fast = config.fast_period as int;
    let slow = config.slow_period as int;
    let signal = config.signal_period as int;
    if history.len() < config.min_eval_length {
        Ok(CrossoverEvent::Hold)
    } else {
        match macd_refusal(history, fast, slow, signal) {
            Some(e) => Err(e),
            None => detect_crossover(
                macd_line(history, fast, slow),
                signal_line(history, fast, slow, signal),
            ),
        }
    }
}

/// Evaluates one window of samples under `config`.
pub fn evaluate(prices: &[i64], config: &TrackerConfig) -> (result: Result<
    CrossoverEvent,
    EngineError,
>)
    ensures
        result == evaluation(as_ints(prices@), *config),
{
    if prices.len() < config.min_eval_length {
        return Ok(CrossoverEvent::Hold);
    }
    match calculate_macd(prices, config.fast_period, config.slow_period, config.signal_period) {
        Ok((macd, signal)) => check_macd_signal(macd.as_slice(), signal.as_slice()),
        Err(e) => Err(e),
    }
}

/// The samples held for `id`, or none if the instrument was never seen.
pub open spec fn history_of(histories: Map<Seq<char>, Seq<i64>>, id: Seq<char>) -> Seq<i64> {
    if histories.contains_key(id) {
        histories[id]
    } else {
        Seq::empty()
    }
}

/// What a read of `id` answers: the samples held, if the instrument was ever seen.
pub open spec fn lookup(histories: Map<Seq<char>, Seq<i64>>, id: Seq<char>) -> Option<Seq<i64>> {
    if histories.contains_key(id) {
        Some(histories[id])
    } else {
        None
    }
}

/// The histories after one sample of `id`: its window takes the sample, and
/// every other instrument is as before.
pub open spec fn recorded(
    histories: Map<Seq<char>, Seq<i64>>,
    capacity: nat,
    id: Seq<char>,
    price: i64,
) -> Map<Seq<char>, Seq<i64>> {
    histories.insert(id, window_push(history_of(histories, id), capacity, price))
}

/// The histories after a run of samples of `id`, taken one by one in order.
pub open spec fn recorded_all(
    histories: Map<Seq<char>, Seq<i64>>,
    capacity: nat,
    id: Seq<char>,
    prices: Seq<i64>,
) -> Map<Seq<char>, Seq<i64>>
    decreases prices.len(),
{
    if prices.len() == 0 {
        histories
    } else {
        recorded(
            recorded_all(histories, capacity, id, prices.drop_last()),
            capacity,
            id,
            prices.last(),
        )
    }
}

/// Samples taken one by one fill the instrument's window as a run appended
/// to it does, and leave everything else alone.
pub proof fn lemma_run_of_samples(
    histories: Map<Seq<char>, Seq<i64>>,
    capacity: nat,
    id: Seq<char>,
    prices: Seq<i64>,
)
    requires
        prices.len() >= 1,
    ensures
        recorded_all(histories, capacity, id, prices) == histories.insert(
            id,
            window_extend(history_of(histories, id), capacity, prices),
        ),
    decreases prices.len(),
{
    let earlier = prices.drop_last();
    let before = recorded_all(histories, capacity, id, earlier);
    let window = window_extend(history_of(histories, id), capacity, earlier);
    if earlier.len() > 0 {
        lemma_run_of_samples(histories, capacity, id, earlier);
    } else {
        assert(before == histories);
        assert(window == history_of(histories, id));
    }
    assert(history_of(before, id) == window);
    assert(recorded_all(histories, capacity, id, prices) =~= histories.insert(
        id,
        window_extend(history_of(histories, id), capacity, prices),
    ));
}

/// A window shorter than the threshold gives no event, whatever it holds.
pub proof fn lemma_quiet_below_threshold(history: Seq<int>, config: TrackerConfig)
    requires
        history.len() < config.min_eval_length,
    ensures
        evaluation(history, config) == Ok::<CrossoverEvent, EngineError>(CrossoverEvent::Hold),
{
}

/// An instrument gives no event before it has been given `min_eval_length`
/// samples: a window filled from empty holds no more samples than it was given.
pub proof fn lemma_quiet_until_enough_samples(prices: Seq<i64>, config: TrackerConfig)
    requires
        prices.len() < config.min_eval_length,
    ensures
        evaluation(
            as_ints(window_extend(Seq::<i64>::empty(), config.capacity as nat, prices)),
            config,
        ) == Ok::<CrossoverEvent, EngineError>(CrossoverEvent::Hold),
{
    lemma_window_keeps_latest(Seq::<i64>::empty(), config.capacity as nat, prices);
    assert(Seq::<i64>::empty() + prices =~= prices);
    assert(latest(prices, config.capacity as nat).len() <= prices.len());
}

/// Under well-formed settings no window is refused as invalid input.
pub proof fn lemma_settings_rule_out_invalid_input(history: Seq<int>, config: TrackerConfig)
    requires
        config.well_formed(),
    ensures
        evaluation(history, config) != Err::<CrossoverEvent, EngineError>(
            EngineError::InvalidInput,
        ),
{
}

/// Under well-formed settings a window of prices that are never negative is
/// always evaluated to an event.
pub proof fn lemma_nonnegative_prices_evaluate(history: Seq<i64>, config: TrackerConfig)
    requires
        config.well_formed(),
        forall|j: int| 0 <= j < history.len() ==> #[trigger] history[j] >= 0,
    ensures
        evaluation(as_ints(history), config) is Ok,
{
    if history.len() >= config.min_eval_length {
        lemma_macd_of_nonnegative_prices(
            history,
            config.fast_period as int,
            config.slow_period as int,
            config.signal_period as int,
        );
    }
}

/// A sample of one instrument changes no other instrument's history.
pub proof fn lemma_sample_is_confined(
    histories: Map<Seq<char>, Seq<i64>>,
    capacity: nat,
    id: Seq<char>,
    price: i64,
    other: Seq<char>,
)
    requires
        other != id,
    ensures
        lookup(recorded(histories, capacity, id, price), other) == lookup(histories, other),
{
}

/// Reading is repeatable: two reads of one instrument with no sample taken
/// in between give the same answer.
pub proof fn lemma_reads_agree(
    histories: Map<Seq<char>, Seq<i64>>,
    id: Seq<char>,
    first: Option<Seq<i64>>,
    second: Option<Seq<i64>>,
)
    requires
        first == lookup(histories, id),
        second == lookup(histories, id),
    ensures
        first == second,
{
}

/// Whether every instrument has a slot of its own among `histories`, each a
/// window of size `capacity` that holds no more than that.
spec fn consistent(slots: Map<Seq<char>, usize>, histories: Seq<PriceHistory>, capacity: nat)
    -> bool {
    &&& forall|id: Seq<char>| #[trigger]
        slots.contains_key(id) ==> slots[id] < histories.len()
    &&& forall|a: Seq<char>, b: Seq<char>|
        #[trigger] slots.contains_key(a) && #[trigger] slots.contains_key(b) && a != b
            ==> slots[a] != slots[b]
    &&& forall|i: int|
        0 <= i < histories.len() ==> {
            &&& (#[trigger] histories[i]).spec_capacity() == capacity
            &&& histories[i]@.len() <= capacity
        }
}

/// The history of every instrument, by identifier.
spec fn contents(slots: Map<Seq<char>, usize>, histories: Seq<PriceHistory>) -> Map<
    Seq<char>,
    Seq<i64>,
> {
    Map::new(|id: Seq<char>| slots.contains_key(id), |id: Seq<char>| histories[slots[id] as int]@)
}

/// Tracks any number of instruments, each by its identifier.
pub struct InstrumentTracker {
    config: TrackerConfig,
    slots: StringHashMap<usize>,
    histories: Vec<PriceHistory>,
}

impl View for InstrumentTracker {
    type V = Map<Seq<char>, Seq<i64>>;

    /// The samples held for each instrument seen so far, oldest first.
    closed spec fn view(&self) -> Map<Seq<char>, Seq<i64>> {
        contents(self.slots@, self.histories@)
    }
}

impl InstrumentTracker {
    #[verifier::type_invariant]
    spec fn well_formed(self) -> bool {
        consistent(self.slots@, self.histories@, self.config.capacity as nat)
    }

    /// The settings the tracker was made with.
    pub closed spec fn spec_config(&self) -> TrackerConfig {
        self.config
    }

    /// A tracker that has seen no instrument yet.
    pub fn new(config: TrackerConfig) -> (tracker: Self)
        ensures
            tracker@ == Map::<Seq<char>, Seq<i64>>::empty(),
            tracker.spec_config() == config,
    {
        let tracker = InstrumentTracker {
            config,
            slots: StringHashMap::new(),
            histories: Vec::new(),
        };
        assert(tracker@ =~= Map::<Seq<char>, Seq<i64>>::empty());
        tracker
    }

    /// The settings the tracker was made with.
    pub fn config(&self) -> (config: TrackerConfig)
        ensures
            config == self.spec_config(),
    {
        self.config
    }

    /// Takes one sample of one instrument and reports what it leads to.
    ///
    /// The sample joins the instrument's window, which starts empty at the
    /// instrument's first sample; then the window is evaluated. No other
    /// instrument's window changes. The sample stays recorded when the
    /// evaluation ends in an error.
    pub fn on_sample(&mut self, instrument_id: &str, price: i64) -> (result: Result<
        CrossoverEvent,
        EngineError,
    >)
        ensures
            final(self).spec_config() == old(self).spec_config(),
            final(self)@ == recorded(
                old(self)@,
                old(self).spec_config().capacity as nat,
                instrument_id@,
                price,
            ),
            result == evaluation(
                as_ints(history_of(final(self)@, instrument_id@)),
                old(self).spec_config(),
            ),
    {
        proof {
            use_type_invariant(&*self);
        }
        let mut taken = InstrumentTracker::new(self.config);
        std::mem::swap(self, &mut taken);
        let InstrumentTracker { config, mut slots, mut histories } = taken;

        let slot: usize = match slots.get(instrument_id) {
            Some(slot) => *slot,
            None => {
                let slot: usize = histories.len();
                histories.push(PriceHistory::new(config.capacity));
                slots.insert(instrument_id.to_owned(), slot);
                slot
            },
        };
        histories[slot].append(price);
        let result = evaluate(histories[slot].samples(), &config);

        assert(contents(slots@, histories@) =~= old(self)@.insert(
            instrument_id@,
            window_push(history_of(old(self)@, instrument_id@), config.capacity as nat, price),
        ));
        *self = InstrumentTracker { config, slots, histories };
        result
    }

    /// The samples held for `instrument_id`, oldest first, if it was ever seen.
    ///
    /// No instrument ever holds more samples than the settings' capacity.
    pub fn history(&self, instrument_id: &str) -> (samples: Option<&[i64]>)
        ensures
            match samples {
                Some(held) => lookup(self@, instrument_id@) == Some(held@),
                None => lookup(self@, instrument_id@) is None,
            },
            history_of(self@, instrument_id@).len() <= self.spec_config().capacity,
    {
        proof {
            use_type_invariant(self);
        }
        match self.slots.get(instrument_id) {
            Some(slot) => Some(self.histories[*slot].samples()),
            None => None,
        }
    }

    /// The number of samples held for `instrument_id`; zero if it was never seen.
    pub fn history_len(&self, instrument_id: &str) -> (len: usize)
        ensures
            len == history_of(self@, instrument_id@).len(),
            len <= self.spec_config().capacity,
    {
        match self.history(instrument_id) {
            Some(held) => held.len(),
            None => 0,
        }
    }

    /// The number of instruments seen so far.
    pub fn instrument_count(&self) -> (count: usize)
        ensures
            count == self@.dom().len(),
    {
        assert(self@.dom() =~= self.slots@.dom());
        self.slots.len()
    }
}

} // verus!
