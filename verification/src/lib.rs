//! A double-entry ledger engine: postings between named ledgers, period
//! resolution, windowed aggregation and report rendering.

pub mod calendar;
pub mod clock;
pub mod errors;
pub mod period;
pub mod render;
pub mod reports;
pub mod sort;
pub mod sums;
pub mod text;
pub mod wallet;
