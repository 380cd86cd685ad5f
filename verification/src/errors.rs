//! Why a request is turned down.

use vstd::prelude::*;

verus! {

/// The reasons for which a request fails. Each of them fails the request as a
/// whole: nothing is settled in part.
#[derive(Clone, Copy, Debug, PartialEq, Eq, Structural)]
pub enum BetError {
    /// A bet or an attached coin is in a currency that the table does not take.
    UnsupportedCurrency,
    /// The quantity of a single bet is under the table's minimum or over its
    /// maximum.
    BetOutOfLimits,
    /// The funds attached in one currency are over the table's limit for a
    /// request or, though not zero, under the minimum bet.
    TotalExceedsLimit,
    /// The category of a bet is not consistent in itself.
    InvalidBetShape,
    /// The bets in some currency do not add up to the funds attached in it.
    FundsMismatch,
    /// No seed was there to draw from.
    RandomnessUnavailable,
    /// A sum of quantities is beyond what a coin can hold.
    Overflow,
}

} // verus!
