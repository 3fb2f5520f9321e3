use vstd::prelude::*;

verus! {

/// Every way an operation of the library can be refused.
///
/// A refused operation changes nothing: each check runs before any
/// record is written.
#[derive(Debug, Clone, Copy, PartialEq, Eq, Structural)]
pub enum ErrorCode {
    /// A price of zero was published.
    InvalidPrice,
    /// A confidence outside `1..=100` was published.
    InvalidConfidence,
    /// A stake of zero was offered.
    InvalidAmount,
    /// A market was opened with an expiry that is not in the future.
    InvalidExpiryTime,
    /// The caller is not the registered publisher.
    Unauthorized,
    /// The market is resolved and takes no more stakes.
    MarketResolved,
    /// The market has expired and takes no more stakes.
    MarketExpired,
    /// The market cannot be resolved before its expiry.
    MarketNotExpired,
    /// The market has been resolved already.
    AlreadyResolved,
    /// Winnings cannot be claimed before resolution.
    MarketNotResolved,
    /// The position has been paid out already.
    AlreadyClaimed,
    /// No price has been published for the commodity.
    PriceNotInitialized,
    /// The latest price is an hour old or older.
    StaleOraclePrice,
    /// The position holds no shares on the winning side.
    NoWinningShares,
    /// Nobody staked on the winning side.
    InvalidPool,
    /// The payout rounds down to zero.
    InvalidPayout,
    /// A counter or pool total would leave its integer range.
    ArithmeticOverflow,
}

impl ErrorCode {
    /// A short human-readable reason for the error.
    pub fn message(&self) -> (r: &'static str)
    {
        match self {
            ErrorCode::InvalidPrice => "Invalid price: must be greater than 0",
            ErrorCode::InvalidConfidence => "Invalid confidence: must be 1-100",
            ErrorCode::InvalidAmount => "Invalid amount: must be greater than 0",
            ErrorCode::InvalidExpiryTime => "Invalid expiry time: must be in the future",
            ErrorCode::Unauthorized => "Unauthorized: only the oracle authority can update prices",
            ErrorCode::MarketResolved => "Market has already been resolved",
            ErrorCode::MarketExpired => "Market has expired",
            ErrorCode::MarketNotExpired => "Market has not expired yet",
            ErrorCode::AlreadyResolved => "Market has already been resolved",
            ErrorCode::MarketNotResolved => "Market has not been resolved yet",
            ErrorCode::AlreadyClaimed => "User has already claimed winnings",
            ErrorCode::PriceNotInitialized => "Price has not been initialized",
            ErrorCode::StaleOraclePrice => "Oracle price is stale",
            ErrorCode::NoWinningShares => "No winning shares in this position",
            ErrorCode::InvalidPool => "Invalid pool calculation",
            ErrorCode::InvalidPayout => "Invalid payout calculation",
            ErrorCode::ArithmeticOverflow => "Arithmetic overflow",
        }
    }
}

} // verus!
