//! Fetching the version list from the index, and the errors on the way.
use vstd::prelude::*;

use crate::client::{
    decimal, outcome_view, HttpClient, HttpClientError, HttpClientErrorView, HttpResponse,
    HttpResponseView,
};
use crate::text::concat_str;
use crate::version::error::VersionManagerError;

verus! {

/// The error of a request for the version list that failed.
pub fn fetch_failure(e: &HttpClientError) -> (r: VersionManagerError)
    ensures
        r matches VersionManagerError::Network(m) && m@ == "failed to fetch version list: "@
            + e.message_spec(),
{
    let detail = e.message();
    VersionManagerError::Network(concat_str("failed to fetch version list: ", detail.as_str()))
}

/// The error of a version list that is not a list of releases.
pub fn list_parse_failure(detail: &str) -> (r: VersionManagerError)
    ensures
        r matches VersionManagerError::Parse(m) && m@ == "failed to parse version list: "@
            + detail@,
{
    VersionManagerError::Parse(concat_str("failed to parse version list: ", detail))
}

/// The error of a cached list that cannot be read back.
pub fn cache_parse_failure(detail: &str) -> (r: VersionManagerError)
    ensures
        r matches VersionManagerError::Parse(m) && m@ == "failed to parse cache: "@ + detail@,
{
    VersionManagerError::Parse(concat_str("failed to parse cache: ", detail))
}

/// The body of the index's answer, or the error that the failed request
/// becomes.
pub fn index_outcome(outcome: Result<HttpResponse, HttpClientError>) -> (r: Result<
    Vec<u8>,
    VersionManagerError,
>)
    ensures
        match outcome {
            Ok(resp) => r matches Ok(data) && data@ == resp.data@,
            Err(e) => r matches Err(VersionManagerError::Network(m)) && m@
                == "failed to fetch version list: "@ + e.message_spec(),
        },
{
    match outcome {
        Ok(resp) => Ok(resp.data),
        Err(e) => Err(fetch_failure(&e)),
    }
}

/// What becomes of a request's outcome: the body, or the error that the
/// failed request becomes.
pub open spec fn index_outcome_spec(outcome: Result<HttpResponseView, HttpClientErrorView>) -> Result<
    Seq<u8>,
    Seq<char>,
> {
    match outcome {
        Ok(resp) => Ok(resp.data),
        Err(e) => Err("failed to fetch version list: "@ + error_message_spec(e)),
    }
}

/// The text of a request error.
pub open spec fn error_message_spec(e: HttpClientErrorView) -> Seq<char> {
    match e {
        HttpClientErrorView::HttpStatus(c, m) => "HTTP "@ + decimal(c as nat) + ": "@ + m,
        HttpClientErrorView::Connection(m) => "connection error: "@ + m,
        HttpClientErrorView::Other(m) => m,
    }
}

/// Asks the index at `url` for the version list: the result is what
/// `index_outcome` makes of one of the client's answers for `url`.
pub fn fetch_index<C: HttpClient>(client: &C, url: &str) -> (r: Result<Vec<u8>, VersionManagerError>)
    ensures
        exists|o: Result<HttpResponseView, HttpClientErrorView>|
            #![trigger client.answers(url@, o)]
            client.answers(url@, o) && match (index_outcome_spec(o), r) {
                (Ok(d), Ok(data)) => data@ == d,
                (Err(m), Err(VersionManagerError::Network(x))) => x@ == m,
                _ => false,
            },
{
    let outcome = client.get(url);
    proof {
        if let Err(e) = &outcome {
            assert(e.message_spec() == error_message_spec(e@));
        }
    }
    index_outcome(outcome)
}

} // verus!
