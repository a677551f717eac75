//! The request for the exchange rates of one date (the latest by default).
use vstd::prelude::*;

use crate::api::shared::{
    base_build_query_params, base_ensure_valid, effective_base, is_targets_include_base,
    params_view, query_pairs, targets_exclude_base, QueryParams,
};
use crate::data::currency::{Currency, CurrencyValue};
use crate::data::date::{date_text, ValidDate};
use crate::error::Error;

verus! {

/// The endpoint path of the latest rates.
pub open spec fn latest_path() -> Seq<char> {
    seq!['l', 'a', 't', 'e', 's', 't']
}

/// Query for the exchange rates of one date.
#[derive(Clone, Debug, PartialEq)]
pub struct Request {
    /// Base currency to be exchanged FROM.
    pub base: Option<Currency>,
    /// Currencies to exchange the base currency TO.
    pub targets: Option<Vec<Currency>>,
    /// Amount of the base currency to be exchanged.
    pub amount: Option<CurrencyValue>,
    /// Date of the exchange rates to be used; the latest where not given.
    pub date: Option<ValidDate>,
}

impl Request {
    /// The endpoint path: `latest`, or the date as `yyyy-mm-dd`.
    pub open spec fn path(self) -> Seq<char> {
        match self.date {
            Some(d) => date_text(d.view()),
            None => latest_path(),
        }
    }

    /// Whether the request may be sent: see [`base_ensure_valid`].
    pub open spec fn is_valid(self) -> bool {
        targets_exclude_base(self.base, self.targets)
    }

    /// The request that the command line describes: the base (EUR where the
    /// user gave none), the targets where there is at least one, the amount
    /// and the date.
    pub fn from_command_line(
        base: Currency,
        targets: Vec<Currency>,
        amount: Option<CurrencyValue>,
        date: Option<ValidDate>,
    ) -> (r: Self)
        ensures
            r.base == Some(base),
            r.targets == (if targets@.len() == 0 {
                None
            } else {
                Some(targets)
            }),
            r.amount == amount,
            r.date == date,
    {
        let targets = if targets.len() == 0 {
            None
        } else {
            Some(targets)
        };
        Request { base: Some(base), targets, amount, date }
    }

    /// The request with the given base.
    pub fn with_base(self, base: Currency) -> (r: Self)
        ensures
            r == (Request { base: Some(base), ..self }),
    {
        Request { base: Some(base), ..self }
    }

    /// The request with the given targets.
    pub fn with_targets(self, targets: Vec<Currency>) -> (r: Self)
        ensures
            r == (Request { targets: Some(targets), ..self }),
    {
        Request { targets: Some(targets), ..self }
    }

    /// The request with the given amount.
    pub fn with_amount(self, amount: CurrencyValue) -> (r: Self)
        ensures
            r == (Request { amount: Some(amount), ..self }),
    {
        Request { amount: Some(amount), ..self }
    }

    /// The request with the given date.
    pub fn with_date(self, date: ValidDate) -> (r: Self)
        ensures
            r == (Request { date: Some(date), ..self }),
    {
        Request { date: Some(date), ..self }
    }

    /// The endpoint path: `latest` where no date is given, else the date in
    /// the form `yyyy-mm-dd`.
    pub fn get_url(&self) -> (r: String)
        ensures
            r@ == self.path(),
    {
        match &self.date {
            Some(date) => date.to_iso_string(),
            None => {
                let s = "latest";
                proof {
                    reveal_strlit("latest");
                    assert(s@ =~= latest_path());
                }
                s.to_string()
            },
        }
    }

    /// Checks that the targets, where given, do not include the effective
    /// base currency.
    pub fn ensure_valid(&self) -> (r: Result<(), Error>)
        ensures
            self.is_valid() ==> r is Ok,
            !self.is_valid() ==> is_targets_include_base(
                r,
                effective_base(self.base),
                self.targets->0@,
            ),
    {
        base_ensure_valid(&self.base, &self.targets)
    }

    /// The query parameters `amount`, `base` and `symbols`, each where given.
    pub fn build_query_params(&self) -> (r: QueryParams)
        ensures
            params_view(r@) == query_pairs(self.amount, self.base, self.targets),
    {
        base_build_query_params(&self.amount, &self.base, &self.targets)
    }

    /// Validates the request, then gives its endpoint path and query
    /// parameters.
    pub fn setup(&self) -> (r: Result<(String, QueryParams), Error>)
        ensures
            self.is_valid() ==> (r matches Ok((path, params)) && path@ == self.path()
                && params_view(params@) == query_pairs(self.amount, self.base, self.targets)),
            !self.is_valid() ==> is_targets_include_base(
                r,
                effective_base(self.base),
                self.targets->0@,
            ),
    {
        match self.ensure_valid() {
            Ok(()) => Ok((self.get_url(), self.build_query_params())),
            Err(e) => Err(e),
        }
    }
}

impl Default for Request {
    fn default() -> (r: Self)
        ensures
            r == (Request { base: None, targets: None, amount: None, date: None }),
    {
        Request { base: None, targets: None, amount: None, date: None }
    }
}

} // verus!
