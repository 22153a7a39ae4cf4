//! Conversion of foreign-currency amounts into pounds sterling using the
//! monthly average exchange-rate tables published as XML documents.
//!
//! The library parses one table per document (a reporting period and its
//! per-currency rates), keeps the tables ordered by the first day of their
//! period, and answers conversions with the rate in force on a given date.
pub mod date;
pub mod decimal;
pub mod error;
pub mod table;
pub mod converter;

pub use date::Date;
pub use decimal::{DecimalValue, GBP};
pub use error::ConversionError;
pub use converter::HMRCMonthlyRatesConverter;
