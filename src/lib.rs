//! Typed client library for a public currency exchange-rate web API.
//!
//! The library holds the validated domain values (currency codes, bounded
//! amounts, bounded dates) and the per-endpoint requests built from them,
//! together with the rules that decide whether a request may be sent and
//! what its endpoint path and query parameters are.
pub mod numeral;
pub mod text;
pub mod data;
pub mod error;
pub mod api;
pub mod cli;

pub use data::currency::{Currency, CurrencyValue};
pub use data::date::{CalendarDate, ValidDate};
pub use error::Error;
