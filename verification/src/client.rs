//! The GraphQL client: a transport abstraction and the envelope handling.
//!
//! The transport is a trait so that callers can inject any HTTP POST
//! implementation; the client owns the interpretation of the GraphQL
//! `data`/`errors` envelope and hands verified decoders the response body.

use vstd::prelude::*;
use crate::error::Error;
use crate::json::{Json, json_to_string, parse_json};
use crate::models::Discussion;

verus! {

/// The GitHub GraphQL endpoint.
pub const GITHUB_GRAPHQL_URL: &'static str = "https://api.github.com/graphql";

/// Whether a GraphQL HTTP response counts as rate limited: either the
/// dedicated status, or an access-denied status whose rate-limit allowance
/// header reads zero.
pub open spec fn spec_is_rate_limited(status: u16, remaining_header_zero: bool) -> bool {
    status == 429 || (status == 403 && remaining_header_zero)
}

/// Classify the HTTP status of a GraphQL response, given whether the
/// response's rate-limit allowance header reads zero: authentication
/// failure and rate limiting get their own kinds, any other access denial
/// carries the response text, any other failure status carries status and
/// text, and a success status passes.
pub fn classify_graphql_http_status(status: u16, remaining_header_zero: bool, body: &str) -> (r:
    Result<(), Error>)
    ensures
        status == 401 ==> (r matches Err(Error::Authentication)),
        status != 401 && spec_is_rate_limited(status, remaining_header_zero) ==> (r matches Err(
            Error::RateLimit,
        )),
        status == 403 && !remaining_header_zero ==> (r matches Err(Error::PermissionDenied(m))
            && m@ == "Access denied: "@ + body@),
        status != 401 && status != 403 && status != 429 && !(200 <= status < 300) ==> (r matches
            Err(Error::Http(m)) && m@ == "HTTP error "@ + crate::text::spec_decimal(
            status as nat,
        ) + ": "@ + body@),
        status != 401 && status != 403 && status != 429 && 200 <= status < 300 ==> r is Ok,
{
    if status == 401 {
        Err(Error::Authentication)
    } else if status == 429 || (status == 403 && remaining_header_zero) {
        Err(Error::RateLimit)
    } else if status == 403 {
        let mut m = "Access denied: ".to_owned();
        m.append(body);
        Err(Error::PermissionDenied(m))
    } else if !(200 <= status && status < 300) {
        let mut m = "HTTP error ".to_owned();
        let d = crate::text::u64_to_string(status as u64);
        m.append(d.as_str());
        m.append(": ");
        m.append(body);
        Err(Error::Http(m))
    } else {
        Ok(())
    }
}

/// An HTTP transport able to POST a JSON body. Nothing is assumed of the
/// response: every caller handles every outcome.
pub trait HttpClient: Send + Sync {
    /// Send a POST request with a JSON body; the result is the response
    /// body text, or a classified failure.
    fn post(&self, url: &str, body: &str) -> Result<String, Error>;
}

/// GraphQL client for GitHub's API, over an injected transport.
pub struct GitHubClient {
    /// The transport used for every request.
    pub http_client: Box<dyn HttpClient>,
}

impl GitHubClient {
    /// Create a new client over the given transport.
    pub fn new(http_client: Box<dyn HttpClient>) -> GitHubClient {
        GitHubClient { http_client }
    }

    /// Execute a GraphQL query and hand back the parsed response document.
    ///
    /// The request body is built by the verified JSON emitter; the response
    /// text must parse as JSON, else the call fails with a parse error.
    pub fn execute_query_raw(&self, query: &str, variables: Json) -> Result<Json, Error> {
        let request = Json::Obj(
            vec![
                ("query".to_owned(), Json::Str(query.to_owned())),
                ("variables".to_owned(), variables),
            ],
        );
        let body = json_to_string(&request);
        let response_text = self.http_client.post(GITHUB_GRAPHQL_URL, body.as_str())?;
        match parse_json(response_text.as_str()) {
            Ok(v) => Ok(v),
            Err(detail) => {
                let mut m = "Failed to parse JSON: ".to_owned();
                m.append(detail.as_str());
                Err(Error::JsonParse(m))
            },
        }
    }

    /// Execute a GraphQL query and decode the discussion under
    /// `data.repository.discussion`. The response envelope is interpreted
    /// by [`crate::fetch::parse_discussion_response`], whose contract says
    /// exactly which responses succeed; whatever the transport returned, a
    /// successful result carries only well-formed timestamps.
    pub fn execute_query(&self, query: &str, variables: Json) -> (r: Result<Discussion, Error>)
        ensures
            r matches Ok(d) ==> crate::fetch::spec_discussion_timestamps_ok(d),
    {
        let response = self.execute_query_raw(query, variables)?;
        let ghost resp_g = response;
        match crate::fetch::parse_discussion_response(response) {
            Ok(d) => {
                proof {
                    match crate::fetch::spec_graphql_error_text(resp_g) {
                        Some(_) => {},
                        None => {
                            match crate::fetch::spec_repository_discussion(resp_g) {
                                Some(dv) => {
                                    crate::fetch::lemma_discussion_matches_timestamps(d, dv);
                                },
                                None => {},
                            }
                        },
                    }
                }
                Ok(d)
            },
            Err(e) => Err(e),
        }
    }
}

} // verus!
