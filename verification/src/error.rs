//! The failures that abort a call.
use crate::engine::FillError;
use crate::funds::Coin;
use vstd::prelude::*;

verus! {

/// Why a call was aborted. A call that fails has taken back what it has
/// written through the book.
#[derive(Debug, PartialEq)]
pub enum ContractError {
    /// The storage does not hold what its keys promise.
    Std,
    /// The funds sent are not one coin of the pair.
    Payment,
    /// A ratio has no value: its denominator is zero or it leaves its range.
    CheckedFromRatio,
    /// An amount does not fit 128 bits.
    ConversionOverflow,
    /// The fill engine refused.
    BidPool(FillError),
    /// A fixed price has more significant figures than the tick allows.
    Tick { price: u128 },
    /// An amount left its range.
    Overflow,
    /// A level could not be traded.
    Swap,
    /// An oracle-relative price has no rate.
    Oracle,
    /// A batch of orders needs more than was supplied and unlocked.
    InsufficientFunds { required: Vec<Coin>, available: Vec<Coin> },
    /// A continuation was not sent by the exchange itself.
    Unauthorized,
    /// No order rests at the key.
    NotFound,
    /// A setting is out of range.
    Invalid(String),
}

} // verus!
