//! Settlement engine for oracle-resolved binary prediction markets.
//!
//! The library holds the oracle price-feed store, the market lifecycle
//! (open, buy, resolve, claim), the proportional payout arithmetic and the
//! byte layouts of the on-ledger records and instructions. Custody of the
//! staked asset, the clock and account I/O are left to the host.
pub mod codec;
pub mod error;
pub mod key;
pub mod market;
pub mod oracle;
pub mod settlement;
