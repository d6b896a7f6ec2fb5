//! Batching of small contributions ("tips") to creators.
//!
//! Tips are pooled per (asset, creator) pair and paid out in one settlement
//! per pool, either when the number of pending tips reaches a configured
//! threshold or when a flush is requested explicitly.

mod address;
mod tips;
mod aggregator;
mod laws;

pub use address::{ComponentId, ResourceId};
pub use aggregator::{TipAggregator, TipError};
pub use laws::{lemma_conservation, lemma_no_double_settlement, lemma_pool_isolation};
pub use tips::{PendingTip, Payout, in_pool, tip_sum, payout_total, pays_out, lists_pool, log_total,
    without_pool, lemma_payouts_total};
