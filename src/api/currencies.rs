//! The request for the currencies that the service knows.
use vstd::prelude::*;

use crate::api::shared::QueryParams;
use crate::error::Error;

verus! {

/// The endpoint path of the currencies.
pub open spec fn currencies_path() -> Seq<char> {
    seq!['c', 'u', 'r', 'r', 'e', 'n', 'c', 'i', 'e', 's']
}

/// Query for the supported currency codes and their full names.
#[derive(Clone, Debug, PartialEq, Default)]
pub struct Request {}

impl Request {
    /// The endpoint path, `currencies`.
    pub fn get_url(&self) -> (r: String)
        ensures
            r@ == currencies_path(),
    {
        let s = "currencies";
        proof {
            reveal_strlit("currencies");
            assert(s@ =~= currencies_path());
        }
        s.to_string()
    }

    /// Always valid.
    pub fn ensure_valid(&self) -> (r: Result<(), Error>)
        ensures
            r is Ok,
    {
        Ok(())
    }

    /// No query parameters.
    pub fn build_query_params(&self) -> (r: QueryParams)
        ensures
            r@.len() == 0,
    {
        Vec::new()
    }

    /// The endpoint path and the (empty) query parameters.
    pub fn setup(&self) -> (r: Result<(String, QueryParams), Error>)
        ensures
            r matches Ok((path, params)) && path@ == currencies_path() && params@.len() == 0,
    {
        Ok((self.get_url(), self.build_query_params()))
    }
}

} // verus!
