//! Errors and reported conditions of trades and aggregations.
use vstd::prelude::*;

use crate::selector::SelectorError;

verus! {

#[derive(Debug, Clone, Copy, PartialEq, Eq)]
pub enum TradeError {
    /// A buy costs more than the balance; nothing changed.
    InsufficientBalance,
    /// A sell ran out of shares; what could be sold was sold, `remaining` was not.
    InsufficientShares { remaining: u32 },
    /// A position's ticker has no price.
    UnknownTicker,
    /// A percentage over a purchased value of zero.
    DivisionByZero,
    /// The instrument selector is malformed; nothing changed.
    InvalidInstrumentSelector(SelectorError),
}

} // verus!
