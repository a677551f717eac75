//! The validated domain values: currencies, amounts and dates.
pub mod currency;
pub mod date;
