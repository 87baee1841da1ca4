//! The records of the API.

use vstd::prelude::*;

verus! {

/// One ticker record of the options API. Prices and quantities are kept as
/// the decimal text that the API sends.
#[derive(Debug, Clone, PartialEq)]
pub struct OptionTicker {
    /// The ticker symbol.
    pub symbol: String,
    /// Price change.
    pub price_change: String,
    /// Price change percentage.
    pub price_change_percent: String,
    /// Last traded price.
    pub last_price: String,
    /// Last traded quantity.
    pub last_qty: String,
    /// Opening price.
    pub open: String,
    /// Highest price.
    pub high: String,
    /// Lowest price.
    pub low: String,
    /// Trading volume.
    pub volume: String,
    /// Trading amount.
    pub amount: String,
    /// Bid price.
    pub bid_price: String,
    /// Ask price.
    pub ask_price: String,
    /// Opening time (timestamp).
    pub open_time: i64,
    /// Closing time (timestamp).
    pub close_time: i64,
    /// First trade ID.
    pub first_trade_id: i64,
    /// Total number of trades.
    pub trade_count: i64,
    /// Strike price.
    pub strike_price: String,
    /// Exercise price.
    pub exercise_price: String,
}

} // verus!
