//! Time-series core of a price oracle: a bounded history window per symbol,
//! streaming OHLC aggregation into day-segmented archives, and a Merkle
//! commitment over the table of latest prices.

pub mod archive;
pub mod feeder;
pub mod merkle;
pub mod ohlc;
pub mod pyth;
pub mod ring_buffer;
pub mod service;
pub mod state;
pub mod table;
pub mod types;
