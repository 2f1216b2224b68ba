//! Period-over-period reports on futures market metrics.
//!
//! Each polling cycle brings the latest record of four series: open interest
//! and the long/short ratios of all accounts, of top traders' positions and of
//! top traders' accounts. The crate reads their decimal text as exact
//! fixed-point numbers, keeps the last reading of every tracked series, and
//! writes a text report of the latest readings with their change since the
//! cycle before.
//!
//! - `decimal`: fixed-point readings and their differences
//! - `parse`: reading decimal text
//! - `numeral`, `format`: writing numbers as text
//! - `tracker`: the last reading of each series, and the change since
//! - `record`, `fetch`: polled records, the latest among them, fetch errors
//! - `report`: the report of one cycle
//! - `schedule`: the wait until the next cycle
//! - `delivery`: the request that sends a report as a chat message

pub mod decimal;
pub mod delivery;
pub mod fetch;
pub mod format;
pub mod numeral;
pub mod parse;
pub mod record;
pub mod report;
pub mod schedule;
pub mod tracker;
