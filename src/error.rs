//! The errors of the library.
use vstd::prelude::*;

use crate::data::currency::Currency;
use crate::data::date::ValidDate;

verus! {

/// The ways in which building or sending a request can fail.
#[derive(Debug)]
pub enum Error {
    /// The target currencies include the (effective) base currency.
    RequestTargetsIncludeBase { base: Currency, targets: Vec<Currency> },
    /// The end date of a period comes before its start date.
    RequestEndDateBeforeStart { start: ValidDate, end: ValidDate },
    /// The period covers only a weekend, for which the service has no rates.
    RequestWeekendDates { start: ValidDate, end: ValidDate },
    /// An amount that is no number, or lies outside the allowed range.
    InvalidCurrencyValue(String),
    /// A date that is malformed, or lies outside the allowed range.
    InvalidDate(String),
    /// The service answered with a status other than success.
    InvalidResponse { url: String, status: u16, body: String },
    /// The request could not be sent or its answer not received.
    Transport(String),
    /// The answer did not have the expected shape.
    Decode(String),
}

} // verus!
