//! The request for the exchange rates over a period of time.
use vstd::prelude::*;

use crate::api::shared::{
    base_build_query_params, base_ensure_valid, effective_base, is_targets_include_base,
    params_view, query_pairs, targets_exclude_base, QueryParams,
};
use crate::data::currency::{Currency, CurrencyValue};
use crate::data::date::{date_text, first_rate_date, CalendarDate, ValidDate, SATURDAY, SUNDAY};
use crate::error::Error;
use crate::text::push_char;

verus! {

/// Whether a period from `start` to `end` is one for which the service has
/// no rates: it starts and ends on a weekend day, Saturday to Saturday,
/// Sunday to Sunday or Saturday to Sunday.
pub open spec fn is_weekend_period(start: CalendarDate, end: CalendarDate) -> bool {
    let a = start.spec_weekday();
    let b = end.spec_weekday();
    ||| a == SATURDAY && b == SATURDAY
    ||| a == SUNDAY && b == SUNDAY
    ||| a == SATURDAY && b == SUNDAY
}

/// Query for the exchange rates over a period of time.
#[derive(Clone, Debug, PartialEq)]
pub struct Request {
    /// Amount of the base currency to be exchanged.
    pub amount: Option<CurrencyValue>,
    /// Base currency to be exchanged FROM.
    pub base: Option<Currency>,
    /// Currencies to exchange the base currency TO.
    pub targets: Option<Vec<Currency>>,
    /// First date of the period.
    pub start_date: ValidDate,
    /// Last date of the period; open-ended where not given.
    pub end_date: Option<ValidDate>,
}

impl Request {
    /// The endpoint path: `start..` or `start..end`.
    pub open spec fn path(self) -> Seq<char> {
        match self.end_date {
            Some(e) => date_text(self.start_date.view()) + seq!['.', '.'] + date_text(e.view()),
            None => date_text(self.start_date.view()) + seq!['.', '.'],
        }
    }

    /// Whether the end date, where given, comes on or after the start date.
    pub open spec fn is_ordered(self) -> bool {
        match self.end_date {
            Some(e) => self.start_date.view().on_or_before(e.view()),
            None => true,
        }
    }

    /// Whether the period, where it has an end date, is a weekend one.
    pub open spec fn is_weekend_only(self) -> bool {
        match self.end_date {
            Some(e) => is_weekend_period(self.start_date.view(), e.view()),
            None => false,
        }
    }

    /// Whether the request may be sent.
    pub open spec fn is_valid(self) -> bool {
        targets_exclude_base(self.base, self.targets) && self.is_ordered()
            && !self.is_weekend_only()
    }

    /// The request that the command line describes: the base, the targets,
    /// the amount, the start date (today where the user gave none) and the
    /// end date.
    pub fn from_command_line(
        base: Currency,
        targets: Vec<Currency>,
        amount: Option<CurrencyValue>,
        start: Option<ValidDate>,
        end: Option<ValidDate>,
    ) -> (r: Self)
        ensures
            r.base == Some(base),
            r.targets == Some(targets),
            r.amount == amount,
            start matches Some(s) ==> r.start_date == s,
            r.end_date == end,
    {
        let start_date = match start {
            Some(s) => s,
            None => ValidDate::max(),
        };
        Request { amount, base: Some(base), targets: Some(targets), start_date, end_date: end }
    }

    /// The request with the given base.
    pub fn with_base(self, base: Currency) -> (r: Self)
        ensures
            r == (Request { base: Some(base), ..self }),
    {
        Request { base: Some(base), ..self }
    }

    /// The request with the given targets.
    pub fn with_targets(self, targets: Vec<Currency>) -> (r: Self)
        ensures
            r == (Request { targets: Some(targets), ..self }),
    {
        Request { targets: Some(targets), ..self }
    }

    /// The request with the given amount.
    pub fn with_amount(self, amount: CurrencyValue) -> (r: Self)
        ensures
            r == (Request { amount: Some(amount), ..self }),
    {
        Request { amount: Some(amount), ..self }
    }

    /// The request with the given start date.
    pub fn with_start_date(self, date: ValidDate) -> (r: Self)
        ensures
            r == (Request { start_date: date, ..self }),
    {
        Request { start_date: date, ..self }
    }

    /// The request with the given end date.
    pub fn with_end_date(self, date: ValidDate) -> (r: Self)
        ensures
            r == (Request { end_date: Some(date), ..self }),
    {
        Request { end_date: Some(date), ..self }
    }

    /// The endpoint path: `yyyy-mm-dd..` for a period without an end date,
    /// else `yyyy-mm-dd..yyyy-mm-dd`.
    pub fn get_url(&self) -> (r: String)
        ensures
            r@ == self.path(),
    {
        let mut s = self.start_date.to_iso_string();
        push_char(&mut s, '.');
        push_char(&mut s, '.');
        if let Some(end) = &self.end_date {
            let e = end.to_iso_string();
            s.append(e.as_str());
        }
        assert(s@ =~= self.path());
        s
    }

    /// Checks the request, in this order: the targets, where given, do not
    /// include the effective base currency; the end date, where given, does
    /// not come before the start date; the period is not a weekend one.
    pub fn ensure_valid(&self) -> (r: Result<(), Error>)
        ensures
            self.is_valid() ==> r is Ok,
            !targets_exclude_base(self.base, self.targets) ==> is_targets_include_base(
                r,
                effective_base(self.base),
                self.targets->0@,
            ),
            targets_exclude_base(self.base, self.targets) && !self.is_ordered() ==> r == Err::<
                (),
                Error,
            >(Error::RequestEndDateBeforeStart { start: self.start_date, end: self.end_date->0 }),
            targets_exclude_base(self.base, self.targets) && self.is_ordered()
                && self.is_weekend_only() ==> r == Err::<(), Error>(
                Error::RequestWeekendDates { start: self.start_date, end: self.end_date->0 },
            ),
    {
        match base_ensure_valid(&self.base, &self.targets) {
            Ok(()) => {},
            Err(e) => {
                return Err(e);
            },
        }
        if let Some(end) = self.end_date {
            if !self.start_date.is_on_or_before(&end) {
                return Err(Error::RequestEndDateBeforeStart { start: self.start_date, end });
            }
            let a = self.start_date.weekday();
            let b = end.weekday();
            if (a == SATURDAY && b == SATURDAY) || (a == SUNDAY && b == SUNDAY) || (a == SATURDAY
                && b == SUNDAY) {
                return Err(Error::RequestWeekendDates { start: self.start_date, end });
            }
        }
        Ok(())
    }

    /// The query parameters `amount`, `base` and `symbols`, each where given.
    pub fn build_query_params(&self) -> (r: QueryParams)
        ensures
            params_view(r@) == query_pairs(self.amount, self.base, self.targets),
    {
        base_build_query_params(&self.amount, &self.base, &self.targets)
    }

    /// Validates the request, then gives its endpoint path and query
    /// parameters.
    pub fn setup(&self) -> (r: Result<(String, QueryParams), Error>)
        ensures
            self.is_valid() ==> (r matches Ok((path, params)) && path@ == self.path()
                && params_view(params@) == query_pairs(self.amount, self.base, self.targets)),
            !targets_exclude_base(self.base, self.targets) ==> is_targets_include_base(
                r,
                effective_base(self.base),
                self.targets->0@,
            ),
            targets_exclude_base(self.base, self.targets) && !self.is_ordered() ==> r == Err::<
                (String, QueryParams),
                Error,
            >(Error::RequestEndDateBeforeStart { start: self.start_date, end: self.end_date->0 }),
            targets_exclude_base(self.base, self.targets) && self.is_ordered()
                && self.is_weekend_only() ==> r == Err::<(String, QueryParams), Error>(
                Error::RequestWeekendDates { start: self.start_date, end: self.end_date->0 },
            ),
    {
        match self.ensure_valid() {
            Ok(()) => Ok((self.get_url(), self.build_query_params())),
            Err(e) => Err(e),
        }
    }
}

impl Default for Request {
    fn default() -> (r: Self)
        ensures
            r.amount is None && r.base is None && r.targets is None && r.end_date is None
                && r.start_date.view() == first_rate_date(),
    {
        Request {
            amount: None,
            base: None,
            targets: None,
            start_date: ValidDate::min(),
            end_date: None,
        }
    }
}

} // verus!
