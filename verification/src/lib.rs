//! Live order-book depth feeds from multiple venues, reconstructed into
//! one canonical, exchange-agnostic book per symbol: exact decimal
//! handling, snapshot/delta reconciliation with sequence-gap recovery,
//! per-venue wire normalization, and a bounded fan-in buffer.

pub mod book;
pub mod fanin;
pub mod decimal;
pub mod error;
pub mod exchanges;
pub mod table;
pub mod text;
