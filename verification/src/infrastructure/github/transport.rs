//! What GitHub's OAuth endpoints answer, classified.
use super::oauth::PollResult;
use super::secret::{seal, secret_text, unseal, Secret};
use crate::infrastructure::InfrastructureError;
use crate::text::{concat, decimal, decimal_text, owned, text_eq};
use vstd::prelude::*;

verus! {

/// An OAuth access token, wiped from memory when dropped.
#[derive(Debug)]
pub struct AccessToken(Secret);

impl AccessToken {
    /// The token's text.
    pub closed spec fn secret(&self) -> Seq<char> {
        secret_text(self.0)
    }

    pub fn new(secret: String) -> (r: AccessToken)
        ensures
            r.secret() == secret@,
    {
        AccessToken(seal(secret))
    }

    /// The token, for an `Authorization` header.
    pub fn expose(&self) -> (r: &str)
        ensures
            r@ == self.secret(),
    {
        unseal(&self.0)
    }
}

/// The fields of the token endpoint's JSON reply.
pub struct TokenResponse {
    pub access_token: Option<String>,
    pub error: Option<String>,
    pub error_description: Option<String>,
}

/// The fields of an OAuth error body.
pub struct ErrorResponse {
    pub error: Option<String>,
    pub error_description: Option<String>,
    pub message: Option<String>,
}

/// The text of an optional string.
pub open spec fn text_of(o: Option<String>) -> Option<Seq<char>> {
    match o {
        Some(s) => Some(s@),
        None => None,
    }
}

/// What a reply of the token endpoint means: a token; not yet approved;
/// poll slower (five seconds); or a failure that keeps GitHub's description.
pub open spec fn poll_meaning(reply: TokenResponse, r: Result<PollResult, InfrastructureError>) -> bool {
    let description = match text_of(reply.error_description) {
        Some(d) => d,
        None => "GitHub did not provide a description"@,
    };
    match text_of(reply.access_token) {
        Some(token) => r matches Ok(PollResult::Token(t)) && t.secret() == token,
        None => match text_of(reply.error) {
            Some(code) => if code == "authorization_pending"@ {
                r matches Ok(PollResult::Pending)
            } else if code == "slow_down"@ {
                r matches Ok(PollResult::SlowDown(s)) && s == 5
            } else if code == "access_denied"@ {
                r matches Err(InfrastructureError::OAuthDenied(d)) && d@ == description
            } else if code == "expired_token"@ {
                r matches Err(InfrastructureError::OAuthExpired)
            } else {
                r matches Err(InfrastructureError::OAuthProtocol(d)) && d@ == code + ": "@
                    + description
            },
            None => r matches Err(InfrastructureError::OAuthProtocol(d)) && d@
                == "GitHub returned neither a token nor an OAuth error"@,
        },
    }
}

/// Classify a reply of the token endpoint.
pub fn classify_token_response(reply: TokenResponse) -> (r: Result<PollResult, InfrastructureError>)
    ensures
        poll_meaning(reply, r),
{
    let ghost reply_before = reply;
    let TokenResponse { access_token, error, error_description } = reply;
    match access_token {
        Some(token) => {
            return Ok(PollResult::Token(AccessToken::new(token)));
        },
        None => {},
    }
    let description = match error_description {
        Some(d) => d,
        None => owned("GitHub did not provide a description"),
    };
    match error {
        Some(code) => {
            if text_eq(code.as_str(), "authorization_pending") {
                Ok(PollResult::Pending)
            } else if text_eq(code.as_str(), "slow_down") {
                Ok(PollResult::SlowDown(5))
            } else if text_eq(code.as_str(), "access_denied") {
                Err(InfrastructureError::OAuthDenied(description))
            } else if text_eq(code.as_str(), "expired_token") {
                Err(InfrastructureError::OAuthExpired)
            } else {
                let head = concat(code.as_str(), ": ");
                Err(InfrastructureError::OAuthProtocol(concat(head.as_str(), description.as_str())))
            }
        },
        None => Err(
            InfrastructureError::OAuthProtocol(
                owned("GitHub returned neither a token nor an OAuth error"),
            ),
        ),
    }
}

/// Whether an HTTP status is a success (200 to 299).
pub open spec fn is_success(status: u16) -> bool {
    200 <= status <= 299
}

/// What an unsuccessful reply says went wrong: the body's description, else
/// its error code, else its message, else the HTTP status. `body` is the
/// parsed error body, if it parsed.
pub open spec fn failure_text(status: u16, body: Option<ErrorResponse>) -> Seq<char> {
    let fallback = "HTTP "@ + decimal_text(status as int);
    match body {
        Some(b) => match text_of(b.error_description) {
            Some(d) => d,
            None => match text_of(b.error) {
                Some(e) => e,
                None => match text_of(b.message) {
                    Some(m) => m,
                    None => fallback,
                },
            },
        },
        None => fallback,
    }
}

/// The failure an HTTP reply stands for: none for a success, else an OAuth
/// protocol failure that keeps the server's words.
pub fn response_failure(status: u16, body: Option<ErrorResponse>) -> (r: Option<InfrastructureError>)
    ensures
        is_success(status) ==> r is None,
        !is_success(status) ==> (r matches Some(InfrastructureError::OAuthProtocol(d)) && d@
            == failure_text(status, body)),
{
    if 200 <= status && status <= 299 {
        return None;
    }
    let fallback = concat("HTTP ", decimal(status as i64).as_str());
    let description = match body {
        Some(b) => match b.error_description {
            Some(d) => d,
            None => match b.error {
                Some(e) => e,
                None => match b.message {
                    Some(m) => m,
                    None => fallback,
                },
            },
        },
        None => fallback,
    };
    Some(InfrastructureError::OAuthProtocol(description))
}

/// The failure of a network call: a timeout, or a transport failure with
/// the transport's message.
pub fn transport_failure(timed_out: bool, message: String) -> (r: InfrastructureError)
    ensures
        timed_out ==> r is NetworkTimeout,
        !timed_out ==> (r matches InfrastructureError::NetworkTransport(m) && m@ == message@),
{
    if timed_out {
        InfrastructureError::NetworkTimeout
    } else {
        InfrastructureError::NetworkTransport(message)
    }
}

#[verifier::external_type_specification]
#[verifier::external_body]
pub struct ExReqwestError(reqwest::Error);

/// Calls `reqwest::Error::is_timeout`. Whether a request timed out depends on
/// the network, so the contract claims nothing of the answer.
#[verifier::external_body]
fn timed_out(error: &reqwest::Error) -> bool {
    error.is_timeout()
}

/// Calls `ToString::to_string` on a `reqwest::Error`: its message. The
/// contract claims nothing of the text, which reqwest composes.
#[verifier::external_body]
fn describe(error: &reqwest::Error) -> String {
    error.to_string()
}

/// The failure a `reqwest` error stands for: a timeout, or a transport
/// failure carrying reqwest's message.
pub fn classify_transport_error(error: reqwest::Error) -> (r: InfrastructureError)
    ensures
        r is NetworkTimeout || r is NetworkTransport,
{
    let timeout = timed_out(&error);
    transport_failure(timeout, describe(&error))
}

} // verus!
