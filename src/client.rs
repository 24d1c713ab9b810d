//! What a backend scrape can come back with.

use crate::exposition::Scrape;
use vstd::prelude::*;

verus! {

/// A header: its name and its raw value.
pub type Header = (String, Vec<u8>);

/// A backend answer with a status outside 2xx.
pub struct HttpError {
    pub status: u16,
    pub headers: Vec<Header>,
    pub data: String,
}

/// A successful scrape: the backend's headers and its parsed samples.
pub struct ScrapeResult {
    pub headers: Vec<Header>,
    pub series: Scrape,
}

/// Why a scrape yields no samples; each variant carries the diagnostic text.
pub enum ScrapeError {
    /// The backend answered with a status outside 2xx.
    Non200(HttpError),
    /// The backend could not be reached.
    FetchError(String),
    /// The backend did not answer in time.
    Timeout(String),
    /// The body is not a valid exposition.
    ParseError(String),
    /// The body is not UTF-8.
    DecodeError(String),
}

/// Whether `status` is in the 2xx range.
pub fn is_success(status: u16) -> (r: bool)
    ensures
        r == (200 <= status < 300),
{
    200 <= status && status < 300
}

} // verus!
