//! The request that asks the exchange for one page of fills, and what went wrong when no
//! page came back.

use vstd::prelude::*;
use vstd::string::StringExecFns;
use crate::cursor::PageQuery;
use crate::text::{signed_decimal, signed_decimal_text};

verus! {

/// A request to the exchange, as far as signing and sending read it.
#[derive(Debug, Clone, PartialEq, Eq)]
pub struct ApiRequest {
    /// The HTTP method, in capitals.
    pub method: String,
    /// The path of the endpoint, from the first slash.
    pub path: String,
    /// What follows the question mark, if anything does.
    pub query: Option<String>,
}

/// A question mark and the query, or nothing where there is no query.
pub open spec fn query_suffix(query: Option<String>) -> Seq<char> {
    match query {
        Some(q) => "?"@ + q@,
        None => Seq::empty(),
    }
}

/// The query of a page of fills: both bounds in seconds since the epoch.
pub open spec fn fills_query_text(q: PageQuery) -> Seq<char> {
    "start_time="@ + signed_decimal_text(q.start_inclusive as int) + "&end_time="@
        + signed_decimal_text(q.end_exclusive as int)
}

/// The address of a request at the exchange.
pub open spec fn url_text(request: ApiRequest) -> Seq<char> {
    "https://ftx.com"@ + request.path@ + query_suffix(request.query)
}

/// The request for the page of fills that `q` describes.
pub fn fills_request(q: &PageQuery) -> (r: ApiRequest)
    ensures
        r.method@ == "GET"@,
        r.path@ == "/api/fills"@,
        r.query matches Some(text) && text@ == fills_query_text(*q),
{
    let mut query = String::from_str("start_time=");
    query.append(signed_decimal(q.start_inclusive).as_str());
    query.append("&end_time=");
    query.append(signed_decimal(q.end_exclusive).as_str());
    ApiRequest {
        method: String::from_str("GET"),
        path: String::from_str("/api/fills"),
        query: Some(query),
    }
}

impl ApiRequest {
    /// The address to send the request to.
    pub fn url(&self) -> (r: String)
        ensures
            r@ == url_text(*self),
    {
        let mut r = String::from_str("https://ftx.com");
        r.append(self.path.as_str());
        match &self.query {
            Some(q) => {
                r.append("?");
                r.append(q.as_str());
                assert(r@ =~= url_text(*self));
            },
            None => {
                assert(r@ =~= url_text(*self));
            },
        }
        r
    }
}

/// Why no page came back. Neither kind is tried again: the run ends.
#[derive(Debug, Clone, PartialEq, Eq)]
pub enum FetchError {
    /// The request did not go through or was refused.
    Transport { cause: String },
    /// A response came, but it is no list of fills. `body` is the response as received.
    Malformed { cause: String, body: String },
}

/// What is reported for a failed fetch: the cause of a transport failure as it is, and
/// for a malformed response the response itself.
pub open spec fn fetch_error_text(e: FetchError) -> Seq<char> {
    match e {
        FetchError::Transport { cause } => cause@,
        FetchError::Malformed { cause, body } =>
            "unexpected response json format. \n\nresponse body:\n"@ + body@,
    }
}

impl FetchError {
    /// The text to report.
    pub fn message(&self) -> (r: String)
        ensures
            r@ == fetch_error_text(*self),
    {
        match self {
            FetchError::Transport { cause } => cause.clone(),
            FetchError::Malformed { cause: _, body } => {
                let mut r = String::from_str(
                    "unexpected response json format. \n\nresponse body:\n",
                );
                r.append(body.as_str());
                r
            },
        }
    }
}

} // verus!
