//! GitHub sign-in via OAuth Device Flow, as the lightweight front end does
//! it: the requests run `curl`, and what their replies mean is decided here.
//!
//! Device Flow has no client secret; the client id is public by design.
//! Only `read:user` is requested: `repo` would grant read and write access to
//! every private repository.
use crate::text::{contains_text, occurs_at, owned, replace_char, replaced, text_eq, trim, trimmed};
use vstd::prelude::*;

verus! {

/// The OAuth app's client id.
pub const CLIENT_ID: &'static str = "Ov23liiLF3n6sxqOh6O9";

/// The only scope requested.
pub const SCOPE: &'static str = "read:user";

/// The Keychain service the token is stored under.
pub const KEYCHAIN_SERVICE: &'static str = "com.kettle.app.github";

/// The Keychain account the token is stored under.
pub const KEYCHAIN_ACCOUNT: &'static str = "oauth-token";

/// GitHub's answer to a device code request.
#[derive(Debug)]
pub struct DeviceCode {
    pub device_code: String,
    /// The short code the user types into the browser, e.g. "ABCD-1234".
    pub user_code: String,
    pub verification_uri: String,
    /// Seconds GitHub requires between polls; polling faster earns
    /// `slow_down`.
    pub interval: u64,
    pub expires_in: u64,
}

/// The outcome of one poll that is not a failure.
pub enum Poll {
    Pending,
    /// GitHub asked to back off; the new interval in seconds.
    SlowDown(u64),
    Token(String),
}

/// Whether a device code reply says Device Flow is disabled for the app.
pub fn device_flow_disabled(body: &str) -> (r: bool)
    ensures
        r == exists|i: int| #[trigger] occurs_at(body@, "device_flow_disabled"@, i),
{
    contains_text(body, "device_flow_disabled")
}

/// What a token reply means: a token; not yet approved; back off to five
/// seconds; or the failure to show, with underscores of an unknown error
/// code shown as spaces.
pub open spec fn poll_reply_meaning(
    access_token: Option<Seq<char>>,
    error: Option<Seq<char>>,
    r: Result<Poll, String>,
) -> bool {
    match access_token {
        Some(t) => r matches Ok(Poll::Token(s)) && s@ == t,
        None => match error {
            Some(e) => if e == "authorization_pending"@ {
                r matches Ok(Poll::Pending)
            } else if e == "slow_down"@ {
                r matches Ok(Poll::SlowDown(n)) && n == 5
            } else if e == "expired_token"@ {
                r matches Err(m) && m@ == "the code expired; start again"@
            } else if e == "access_denied"@ {
                r matches Err(m) && m@ == "sign-in was declined"@
            } else {
                r matches Err(m) && m@ == replaced(e, '_', ' ')
            },
            None => r matches Err(m) && m@ == "GitHub returned neither a token nor an error"@,
        },
    }
}

/// Classify a reply of the token endpoint.
pub fn poll_outcome(access_token: Option<String>, error: Option<String>) -> (r: Result<Poll, String>)
    ensures
        poll_reply_meaning(
            match access_token {
                Some(t) => Some(t@),
                None => None,
            },
            match error {
                Some(e) => Some(e@),
                None => None,
            },
            r,
        ),
{
    match access_token {
        Some(t) => {
            return Ok(Poll::Token(t));
        },
        None => {},
    }
    match error {
        Some(e) => {
            if text_eq(e.as_str(), "authorization_pending") {
                Ok(Poll::Pending)
            } else if text_eq(e.as_str(), "slow_down") {
                Ok(Poll::SlowDown(5))
            } else if text_eq(e.as_str(), "expired_token") {
                Err(owned("the code expired; start again"))
            } else if text_eq(e.as_str(), "access_denied") {
                Err(owned("sign-in was declined"))
            } else {
                Err(replace_char(e.as_str(), '_', ' '))
            }
        },
        None => Err(owned("GitHub returned neither a token nor an error")),
    }
}

/// The token `security find-generic-password -w` printed: its output
/// trimmed, or none when that is empty.
pub fn token_from_output(stdout: &str) -> (r: Option<String>)
    ensures
        trimmed(stdout@).len() == 0 ==> r is None,
        trimmed(stdout@).len() > 0 ==> (r matches Some(t) && t@ == trimmed(stdout@)),
{
    let t = trim(stdout);
    if crate::text::chars_of(t).len() == 0 {
        None
    } else {
        Some(owned(t))
    }
}

} // verus!
