//! The failures that the operations of the service report.

use vstd::prelude::*;

verus! {

/// Why an operation was refused. Every refusal names the condition that was
/// not met; a refused operation changes nothing.
#[derive(Clone, Copy, PartialEq, Eq, Structural, Debug)]
pub enum ErrorCode {
    /// The market does not take bets: it is not open.
    MarketClosed,
    /// The bet comes before the opening date or after the closing date.
    BettingPeriodOver,
    /// The amount is below the market's minimum.
    BetTooSmall,
    /// The amount is above the market's maximum.
    BetTooLarge,
    /// The bet would take the user's stake in the market over its limit.
    MaxCumulativeBetExceeded,
    /// The market has no outcome at that index.
    InvalidOutcomeIndex,
    /// The caller may not do this.
    Unauthorized,
    /// The market cannot be settled: it is not closed.
    MarketNotClosed,
    /// Rewards cannot be claimed: the market is not settled.
    MarketNotSettled,
    /// The user holds no stake in the market.
    NoBetPlaced,
    /// The market records no winning outcome.
    NoWinnerSet,
    /// The user staked nothing on the winning outcome.
    NotEligibleForReward,
    /// No such administrator.
    AdminNotFound,
    /// The record belongs to another user.
    UserNotFound,
    /// No such market.
    MarketNotFound,
}

impl ErrorCode {
    /// The words in which the refusal is told.
    pub open spec fn text(self) -> Seq<char> {
        match self {
            ErrorCode::MarketClosed => "Market is already closed."@,
            ErrorCode::BettingPeriodOver => "Betting period is over."@,
            ErrorCode::BetTooSmall => "Bet amount is too small."@,
            ErrorCode::BetTooLarge => "Bet amount is too large."@,
            ErrorCode::MaxCumulativeBetExceeded => "Maximum cumulative bet exceeded."@,
            ErrorCode::InvalidOutcomeIndex => "Invalid outcome index."@,
            ErrorCode::Unauthorized => "Unauthorized."@,
            ErrorCode::MarketNotClosed => "Market is not closed."@,
            ErrorCode::MarketNotSettled => "Market is not settled."@,
            ErrorCode::NoBetPlaced => "No bet placed."@,
            ErrorCode::NoWinnerSet => "No winner set."@,
            ErrorCode::NotEligibleForReward => "Not eligible for reward."@,
            ErrorCode::AdminNotFound => "Admin not found."@,
            ErrorCode::UserNotFound => "User has no betting history in this market."@,
            ErrorCode::MarketNotFound => "The specified market was not found."@,
        }
    }

    /// The refusal in words.
    pub fn message(&self) -> (words: String)
        ensures
            words@ == self.text(),
    {
        match self {
            ErrorCode::MarketClosed => "Market is already closed.".to_owned(),
            ErrorCode::BettingPeriodOver => "Betting period is over.".to_owned(),
            ErrorCode::BetTooSmall => "Bet amount is too small.".to_owned(),
            ErrorCode::BetTooLarge => "Bet amount is too large.".to_owned(),
            ErrorCode::MaxCumulativeBetExceeded => "Maximum cumulative bet exceeded.".to_owned(),
            ErrorCode::InvalidOutcomeIndex => "Invalid outcome index.".to_owned(),
            ErrorCode::Unauthorized => "Unauthorized.".to_owned(),
            ErrorCode::MarketNotClosed => "Market is not closed.".to_owned(),
            ErrorCode::MarketNotSettled => "Market is not settled.".to_owned(),
            ErrorCode::NoBetPlaced => "No bet placed.".to_owned(),
            ErrorCode::NoWinnerSet => "No winner set.".to_owned(),
            ErrorCode::NotEligibleForReward => "Not eligible for reward.".to_owned(),
            ErrorCode::AdminNotFound => "Admin not found.".to_owned(),
            ErrorCode::UserNotFound => "User has no betting history in this market.".to_owned(),
            ErrorCode::MarketNotFound => "The specified market was not found.".to_owned(),
        }
    }
}

} // verus!
