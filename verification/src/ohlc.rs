//! Streaming open/high/low/close aggregation over one bucket of a price
//! stream.

use crate::types::{bar_ordered, Bar, Price};
use vstd::prelude::*;

verus! {

/// The bar of a bucket that has seen the single value `value`.
pub open spec fn first_bar(start: u64, value: u64) -> Bar {
    Bar { timestamp: start, open: value, high: value, low: value, close: value, volume: None }
}

/// `bar` after one more value of its bucket.
pub open spec fn extend_bar(bar: Bar, value: u64) -> Bar {
    Bar {
        timestamp: bar.timestamp,
        open: bar.open,
        high: if value > bar.high {
            value
        } else {
            bar.high
        },
        low: if value < bar.low {
            value
        } else {
            bar.low
        },
        close: value,
        volume: bar.volume,
    }
}

/// The bar of the bucket starting at `start` once `value` has joined what
/// `current` summarises.
pub open spec fn absorb(current: Option<Bar>, start: u64, value: u64) -> Bar {
    match current {
        None => first_bar(start, value),
        Some(bar) => extend_bar(bar, value),
    }
}

/// The bar that summarises `values`, observed in this order within the
/// bucket starting at `start`; none for no values.
pub open spec fn bar_of(start: u64, values: Seq<u64>) -> Option<Bar>
    decreases values.len(),
{
    if values.len() == 0 {
        None
    } else {
        Some(absorb(bar_of(start, values.drop_last()), start, values.last()))
    }
}

/// The values of a run of observations, in order.
pub open spec fn values_of(prices: Seq<Price>) -> Seq<u64> {
    prices.map_values(|p: Price| p.value)
}

/// For any run of observations within one bucket the bar opens with the
/// first value, closes with the last, and its low and high are the least
/// and the greatest value seen, so that low <= open, close <= high.
pub proof fn lemma_bar_of_summarises(start: u64, values: Seq<u64>)
    requires
        values.len() > 0,
    ensures
        bar_of(start, values) is Some,
        bar_of(start, values).unwrap().timestamp == start,
        bar_of(start, values).unwrap().open == values.first(),
        bar_of(start, values).unwrap().close == values.last(),
        bar_of(start, values).unwrap().volume is None,
        bar_ordered(bar_of(start, values).unwrap()),
        forall|i: int|
            0 <= i < values.len() ==> bar_of(start, values).unwrap().low <= #[trigger] values[i]
                <= bar_of(start, values).unwrap().high,
        exists|i: int|
            0 <= i < values.len() && #[trigger] values[i] == bar_of(start, values).unwrap().high,
        exists|i: int|
            0 <= i < values.len() && #[trigger] values[i] == bar_of(start, values).unwrap().low,
    decreases values.len(),
{
    let front = values.drop_last();
    let bar = bar_of(start, values).unwrap();
    if front.len() == 0 {
        assert(bar_of(start, front) is None);
        assert(values[0] == bar.high);
        assert(values[0] == bar.low);
    } else {
        lemma_bar_of_summarises(start, front);
        let before = bar_of(start, front).unwrap();
        assert(front.first() == values.first());
        assert forall|i: int| 0 <= i < values.len() implies bar.low <= #[trigger] values[i]
            <= bar.high by {
            if i < front.len() {
                assert(front[i] == values[i]);
            }
        }
        let hi = choose|i: int| 0 <= i < front.len() && #[trigger] front[i] == before.high;
        let lo = choose|i: int| 0 <= i < front.len() && #[trigger] front[i] == before.low;
        let last = values.len() - 1;
        if values.last() > before.high {
            assert(values[last] == bar.high);
        } else {
            assert(values[hi] == bar.high);
        }
        if values.last() < before.low {
            assert(values[last] == bar.low);
        } else {
            assert(values[lo] == bar.low);
        }
    }
}

/// Accumulates the bar of one bucket, one observation at a time.
#[derive(Clone, Copy, Debug)]
pub struct OHLCBuilder {
    open: Option<u64>,
    high: u64,
    low: u64,
    close: u64,
    start_time: u64,
}

impl OHLCBuilder {
    /// Start of the bucket this builder aggregates.
    pub closed spec fn bucket_start(&self) -> u64 {
        self.start_time
    }

    /// The bar of what has been observed so far; none before the first
    /// observation.
    pub closed spec fn bar(&self) -> Option<Bar> {
        match self.open {
            None => None,
            Some(open) => Some(
                Bar {
                    timestamp: self.start_time,
                    open,
                    high: self.high,
                    low: if self.low == u64::MAX {
                        open
                    } else {
                        self.low
                    },
                    close: self.close,
                    volume: None,
                },
            ),
        }
    }

    #[verifier::type_invariant]
    spec fn well_formed(&self) -> bool {
        match self.open {
            None => self.high == 0 && self.low == u64::MAX,
            Some(open) => self.low <= open <= self.high && self.low <= self.close <= self.high,
        }
    }

    /// A builder for the bucket starting at `start_time`, with nothing
    /// observed.
    pub fn new(start_time: u64) -> (builder: Self)
        ensures
            builder.bucket_start() == start_time,
            builder.bar() is None,
    {
        OHLCBuilder { open: None, high: 0, low: u64::MAX, close: 0, start_time }
    }

    /// The bar in progress is stamped with the start of the builder's bucket.
    pub proof fn lemma_bar_stamped(&self)
        ensures
            self.bar() matches Some(bar) ==> bar.timestamp == self.bucket_start(),
    {
    }

    /// Start of the bucket this builder aggregates.
    pub fn get_start_time(&self) -> (start: u64)
        ensures
            start == self.bucket_start(),
    {
        self.start_time
    }

    /// Takes one more observation of the bucket into the bar.
    pub fn add_price(&mut self, price: &Price)
        ensures
            final(self).bucket_start() == old(self).bucket_start(),
            final(self).bar() == Some(absorb(old(self).bar(), old(self).bucket_start(), price.value)),
    {
        proof {
            use_type_invariant(&*self);
        }
        let open: u64 = match self.open {
            None => price.value,
            Some(open) => open,
        };
        let high: u64 = if price.value > self.high {
            price.value
        } else {
            self.high
        };
        let low: u64 = if price.value < self.low {
            price.value
        } else {
            self.low
        };
        *self = OHLCBuilder {
            open: Some(open),
            high,
            low,
            close: price.value,
            start_time: self.start_time,
        };
    }

    /// The bar so far, leaving the builder as it is.
    pub fn peek(&self) -> (bar: Option<Bar>)
        ensures
            bar == self.bar(),
            bar matches Some(found) ==> found.timestamp == self.bucket_start(),
    {
        match self.open {
            None => None,
            Some(open) => Some(
                Bar {
                    timestamp: self.start_time,
                    open,
                    high: self.high,
                    low: if self.low == u64::MAX {
                        open
                    } else {
                        self.low
                    },
                    close: self.close,
                    volume: None,
                },
            ),
        }
    }

    /// The finished bar; none if nothing was observed, so that a gap in the
    /// stream yields no zero-filled bar.
    pub fn build(self) -> (bar: Option<Bar>)
        ensures
            bar == self.bar(),
    {
        self.peek()
    }
}

/// The bar of `prices`, taken in order as the observations of the bucket
/// starting at `period_start`.
pub fn aggregate_prices_to_bar(prices: &[Price], period_start: u64) -> (bar: Option<Bar>)
    ensures
        bar == bar_of(period_start, values_of(prices@)),
{
    let mut builder = OHLCBuilder::new(period_start);
    let mut i: usize = 0;
    assert(values_of(prices@).take(0) =~= Seq::<u64>::empty());
    while i < prices.len()
        invariant
            i <= prices.len(),
            builder.bucket_start() == period_start,
            builder.bar() == bar_of(period_start, values_of(prices@).take(i as int)),
        decreases prices.len() - i,
    {
        builder.add_price(&prices[i]);
        proof {
            let values = values_of(prices@);
            assert(values.take(i + 1).drop_last() =~= values.take(i as int));
            assert(values.take(i + 1).last() == prices@[i as int].value);
        }
        i = i + 1;
    }
    assert(values_of(prices@).take(i as int) =~= values_of(prices@));
    builder.build()
}

} // verus!
