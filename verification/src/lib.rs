//! Settlement core of a margined synthetic exposure market.
//!
//! Participants take signed positions against an oracle-supplied reference
//! price, post collateral into a pool escrow account, and are revalued,
//! liquidated and netted once per settlement cycle. All ledger mutation is
//! verified; only two exact 256-bit rational multiplications are taken on
//! trust from `sp_arithmetic`.

pub mod account;
pub mod arith;
pub mod engine;
pub mod errors;
pub mod events;
pub mod laws;
pub mod mock;
pub mod price_feed;
pub mod settle;
pub mod tokens;
