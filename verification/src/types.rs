//! Plain data carried through the oracle: observations, bars and counters.

use vstd::prelude::*;

verus! {

/// Key under which a price series is stored.
pub type Symbol = String;

/// One price observation. `value` is fixed-point with an implicit scale;
/// `timestamp` counts seconds.
#[derive(Debug)]
pub struct Price {
    pub value: u64,
    pub confidence: Option<u64>,
    pub timestamp: u64,
    pub source: String,
}

impl Clone for Price {
    fn clone(&self) -> (res: Self)
        ensures
            res == *self,
    {
        Price {
            value: self.value,
            confidence: self.confidence,
            timestamp: self.timestamp,
            source: self.source.clone(),
        }
    }
}

/// One open/high/low/close aggregate. `timestamp` is the start of its bucket.
#[derive(Clone, Copy, Debug, PartialEq, Eq, Structural)]
pub struct Bar {
    pub timestamp: u64,
    pub open: u64,
    pub high: u64,
    pub low: u64,
    pub close: u64,
    pub volume: Option<u64>,
}

/// The ordering every bar keeps: low and high enclose open and close.
pub open spec fn bar_ordered(bar: Bar) -> bool {
    &&& bar.low <= bar.open <= bar.high
    &&& bar.low <= bar.close <= bar.high
}

/// How prices are aggregated and for how many days history is retained.
#[derive(Debug)]
pub struct Policy {
    pub aggregation: String,
    pub retain_history: u32,
}

impl Clone for Policy {
    fn clone(&self) -> (res: Self)
        ensures
            res == *self,
    {
        Policy { aggregation: self.aggregation.clone(), retain_history: self.retain_history }
    }
}

/// One item of a batch: an observation for a symbol.
#[derive(Debug)]
pub struct PriceUpdate {
    pub symbol: Symbol,
    pub price: Price,
}

impl Clone for PriceUpdate {
    fn clone(&self) -> (res: Self)
        ensures
            res == *self,
    {
        PriceUpdate { symbol: self.symbol.clone(), price: self.price.clone() }
    }
}

/// Counters reported about a store.
#[derive(Clone, Copy, Debug, PartialEq, Eq, Structural)]
pub struct OracleMetrics {
    pub total_symbols: u64,
    pub total_updates: u64,
    pub last_update_time: u64,
    pub canister_cycles: u64,
    pub version: u64,
}

} // verus!
