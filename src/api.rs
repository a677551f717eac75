//! Requests to the exchange-rate service, and the decisions around sending
//! them: the full URL of a request and the reading of the answer's status.
pub mod convert;
pub mod currencies;
pub mod period;
pub mod shared;

use vstd::prelude::*;

use crate::error::Error;

verus! {

/// Whether an HTTP status reports success (2xx).
pub open spec fn is_success(status: u16) -> bool {
    200 <= status <= 299
}

/// The URL of an endpoint: the service's base URL followed by the path.
pub fn endpoint_url(base_url: &str, path: &str) -> (r: String)
    ensures
        r@ == base_url@ + path@,
{
    let s = base_url.to_string();
    s.concat(path)
}

/// Whether an HTTP status reports success (2xx).
pub fn is_success_status(status: u16) -> (r: bool)
    ensures
        r == is_success(status),
{
    200 <= status && status <= 299
}

/// Reads the status of the service's answer to a request sent to `url`:
/// on success the body is handed on to be decoded, on any other status the
/// answer is [`Error::InvalidResponse`] with the URL, the status and the body.
pub fn check_response(url: String, status: u16, body: String) -> (r: Result<String, Error>)
    ensures
        is_success(status) ==> r == Ok::<String, Error>(body),
        !is_success(status) ==> r == Err::<String, Error>(
            Error::InvalidResponse { url, status, body },
        ),
{
    if is_success_status(status) {
        Ok(body)
    } else {
        Err(Error::InvalidResponse { url, status, body })
    }
}

} // verus!
