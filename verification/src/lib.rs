//! Core engine of a real-time trader-analytics service for an on-chain
//! prediction-market exchange: event decoding, market-metadata caching keyed
//! by a significand digest, broadcast gating between two event sources,
//! convergence detection, settlement pricing, PnL accounting, behavioral
//! labeling, and the wallet-auth nonce protocol.

pub mod assoc;
pub mod authstore;
pub mod cachewarm;
pub mod convergence;
pub mod digest;
pub mod fills;
pub mod hexstr;
pub mod hotmerge;
pub mod labels;
pub mod market;
pub mod money;
pub mod numstr;
pub mod outside;
pub mod pipeline;
pub mod pnl;
pub mod portfolio;
pub mod resolution;
pub mod subscriber;
pub mod queries;
pub mod text;
pub mod types;
