//! A bounded window of the latest samples of one instrument.

use vstd::prelude::*;

verus! {

/// The latest `count` samples of a series, or all of it where it has fewer.
pub open spec fn latest(samples: Seq<i64>, count: nat) -> Seq<i64> {
    if samples.len() > count {
        samples.subrange(samples.len() - count, samples.len() as int)
    } else {
        samples
    }
}

/// What a window holds after one more sample: the sample goes to the end, and
/// only the latest `capacity` samples are kept.
pub open spec fn window_push(window: Seq<i64>, capacity: nat, price: i64) -> Seq<i64> {
    latest(window.push(price), capacity)
}

/// What a window holds after a run of samples, appended one by one in order.
pub open spec fn window_extend(window: Seq<i64>, capacity: nat, prices: Seq<i64>) -> Seq<i64>
    decreases prices.len(),
{
    if prices.len() == 0 {
        window
    } else {
        window_push(window_extend(window, capacity, prices.drop_last()), capacity, prices.last())
    }
}

/// A window never grows beyond its capacity.
pub proof fn lemma_window_push_bounded(window: Seq<i64>, capacity: nat, price: i64)
    ensures
        window_push(window, capacity, price).len() <= capacity,
        window.len() < capacity ==> window_push(window, capacity, price) == window.push(price),
{
}

/// A window is a sliding one: after any run of samples it holds the latest
/// `capacity` of all that it held and was given, in the order of arrival.
pub proof fn lemma_window_keeps_latest(window: Seq<i64>, capacity: nat, prices: Seq<i64>)
    requires
        window.len() <= capacity,
    ensures
        window_extend(window, capacity, prices) == latest(window + prices, capacity),
    decreases prices.len(),
{
    if prices.len() == 0 {
        assert(window + prices =~= window);
    } else {
        let earlier = prices.drop_last();
        lemma_window_keeps_latest(window, capacity, earlier);
        assert((window + earlier).push(prices.last()) =~= window + prices);
        assert(latest(latest(window + earlier, capacity).push(prices.last()), capacity) =~= latest(
            window + prices,
            capacity,
        ));
    }
}

/// One sample more than an empty window can keep evicts the very first: what
/// is left are `capacity` samples, the oldest of them the second one given.
pub proof fn lemma_overfill_evicts_first(capacity: nat, prices: Seq<i64>)
    requires
        capacity >= 1,
        prices.len() == capacity + 1,
    ensures
        window_extend(Seq::<i64>::empty(), capacity, prices).len() == capacity,
        window_extend(Seq::<i64>::empty(), capacity, prices).first() == prices[1],
        window_extend(Seq::<i64>::empty(), capacity, prices) == prices.subrange(
            1,
            prices.len() as int,
        ),
{
    lemma_window_keeps_latest(Seq::<i64>::empty(), capacity, prices);
    assert(Seq::<i64>::empty() + prices =~= prices);
}

/// The samples of one instrument, oldest first, never more than a fixed capacity.
pub struct PriceHistory {
    samples: Vec<i64>,
    capacity: usize,
}

impl View for PriceHistory {
    type V = Seq<i64>;

    closed spec fn view(&self) -> Seq<i64> {
        self.samples@
    }
}

impl PriceHistory {
    #[verifier::type_invariant]
    spec fn within_capacity(self) -> bool {
        self.samples.len() <= self.capacity
    }

    /// The most samples the window keeps.
    pub closed spec fn spec_capacity(&self) -> nat {
        self.capacity as nat
    }

    /// An empty window that keeps at most `capacity` samples.
    pub fn new(capacity: usize) -> (history: Self)
        ensures
            history@ == Seq::<i64>::empty(),
            history.spec_capacity() == capacity,
    {
        PriceHistory { samples: Vec::new(), capacity }
    }

    /// The most samples the window keeps.
    pub fn capacity(&self) -> (capacity: usize)
        ensures
            capacity == self.spec_capacity(),
    {
        self.capacity
    }

    /// The number of samples held, which never exceeds the capacity.
    pub fn len(&self) -> (len: usize)
        ensures
            len == self@.len(),
            len <= self.spec_capacity(),
    {
        proof {
            use_type_invariant(self);
        }
        self.samples.len()
    }

    /// Whether no sample is held.
    pub fn is_empty(&self) -> (empty: bool)
        ensures
            empty <==> self@.len() == 0,
    {
        self.samples.len() == 0
    }

    /// The samples held, oldest first.
    pub fn samples(&self) -> (samples: &[i64])
        ensures
            samples@ == self@,
    {
        self.samples.as_slice()
    }

    /// The oldest sample held, if any.
    pub fn oldest(&self) -> (sample: Option<i64>)
        ensures
            sample == (if self@.len() == 0 {
                None
            } else {
                Some(self@.first())
            }),
    {
        if self.samples.len() == 0 {
            None
        } else {
            Some(self.samples[0])
        }
    }

    /// The sample appended last, if any is held.
    pub fn latest(&self) -> (sample: Option<i64>)
        ensures
            sample == (if self@.len() == 0 {
                None
            } else {
                Some(self@.last())
            }),
    {
        let n: usize = self.samples.len();
        if n == 0 {
            None
        } else {
            Some(self.samples[n - 1])
        }
    }

    /// Appends `price`; when the window is full, the oldest sample leaves first.
    pub fn append(&mut self, price: i64)
        ensures
            final(self)@ == window_push(old(self)@, old(self).spec_capacity(), price),
            final(self).spec_capacity() == old(self).spec_capacity(),
    {
        proof {
            use_type_invariant(&*self);
        }
        if self.capacity == 0 {
            assert(self@.push(price).subrange(1, 1) =~= self@);
            return ;
        }
        let mut samples: Vec<i64> = Vec::new();
        std::mem::swap(&mut samples, &mut self.samples);
        if samples.len() == self.capacity {
            samples.remove(0);
        }
        samples.push(price);
        self.samples = samples;
        assert(self@ =~= window_push(old(self)@, old(self).spec_capacity(), price));
    }

    /// Appends every sample of `prices`, in order.
    pub fn extend(&mut self, prices: &[i64])
        ensures
            final(self)@ == window_extend(old(self)@, old(self).spec_capacity(), prices@),
            final(self).spec_capacity() == old(self).spec_capacity(),
    {
        let n: usize = prices.len();
        let mut i: usize = 0;
        while i < n
            invariant
                i <= n,
                n == prices.len(),
                self.spec_capacity() == old(self).spec_capacity(),
                self@ == window_extend(
                    old(self)@,
                    old(self).spec_capacity(),
                    prices@.take(i as int),
                ),
            decreases n - i,
        {
            self.append(prices[i]);
            proof {
                assert(prices@.take(i + 1).drop_last() =~= prices@.take(i as int));
            }
            i += 1;
        }
        assert(prices@.take(n as int) =~= prices@);
    }
}

} // verus!
