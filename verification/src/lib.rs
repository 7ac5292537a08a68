//! A real-time wealth broadcast engine: multi-source price ingestion,
//! portfolio valuation in a fixed-point reference currency, subscription
//! filtered publish/subscribe fan-out, and connection lifecycle bookkeeping.
//!
//! All monetary quantities are fixed-point integers: one unit of the
//! reference currency is `MONEY_SCALE` ticks. Network transport, persistence
//! and HTTP surface live outside this crate; the engine works on plain values.

pub mod money;
pub mod strmap;
pub mod strutil;
pub mod events;
pub mod subscription;
pub mod channel;
pub mod registry;
pub mod health;
pub mod price_cache;
pub mod rates;
pub mod valuation;
pub mod errors;
pub mod monitor;
pub mod feed;
pub mod search;
pub mod api;
