//! The device authorization that GitHub hands out, and when polling it may
//! go on.
use super::secret::{seal, secret_text, unseal, Secret};
use super::transport::AccessToken;
use crate::infrastructure::InfrastructureError;
use vstd::prelude::*;

verus! {

/// A device code in progress: the secret device code, what the user types
/// where, the poll interval and the lifetime, in seconds.
#[derive(Debug)]
pub struct DeviceAuthorization {
    device_code: Secret,
    user_code: String,
    verification_uri: String,
    interval_seconds: u64,
    expires_in_seconds: u64,
}

pub struct DeviceAuthorizationView {
    pub device_code: Seq<char>,
    pub user_code: Seq<char>,
    pub verification_uri: Seq<char>,
    pub interval_seconds: u64,
    pub expires_in_seconds: u64,
}

impl View for DeviceAuthorization {
    type V = DeviceAuthorizationView;

    closed spec fn view(&self) -> DeviceAuthorizationView {
        DeviceAuthorizationView {
            device_code: secret_text(self.device_code),
            user_code: self.user_code@,
            verification_uri: self.verification_uri@,
            interval_seconds: self.interval_seconds,
            expires_in_seconds: self.expires_in_seconds,
        }
    }
}

impl DeviceAuthorization {
    /// The authorization GitHub described. GitHub requires waiting at least
    /// the interval between polls; an interval of zero becomes one second.
    pub fn new(
        device_code: String,
        user_code: String,
        verification_uri: String,
        interval_seconds: u64,
        expires_in_seconds: u64,
    ) -> (r: DeviceAuthorization)
        ensures
            r@ == (DeviceAuthorizationView {
                device_code: device_code@,
                user_code: user_code@,
                verification_uri: verification_uri@,
                interval_seconds: if interval_seconds >= 1 {
                    interval_seconds
                } else {
                    1
                },
                expires_in_seconds,
            }),
    {
        DeviceAuthorization {
            device_code: seal(device_code),
            user_code,
            verification_uri,
            interval_seconds: if interval_seconds >= 1 {
                interval_seconds
            } else {
                1
            },
            expires_in_seconds,
        }
    }

    /// The secret device code, for the token request.
    pub fn device_code(&self) -> (r: &str)
        ensures
            r@ == self@.device_code,
    {
        unseal(&self.device_code)
    }

    /// The code the user types on GitHub's device page.
    pub fn user_code(&self) -> (r: &str)
        ensures
            r@ == self@.user_code,
    {
        self.user_code.as_str()
    }

    /// Where the user types the code.
    pub fn verification_uri(&self) -> (r: &str)
        ensures
            r@ == self@.verification_uri,
    {
        self.verification_uri.as_str()
    }

    /// Seconds to wait between polls; at least one.
    pub fn interval_seconds(&self) -> (r: u64)
        ensures
            r == self@.interval_seconds,
    {
        self.interval_seconds
    }

    /// Seconds until the device code expires.
    pub fn expires_in_seconds(&self) -> (r: u64)
        ensures
            r == self@.expires_in_seconds,
    {
        self.expires_in_seconds
    }
}

/// What one poll of the token endpoint answered.
#[derive(Debug)]
pub enum PollResult {
    /// The user has not approved yet.
    Pending,
    /// GitHub asked to poll less often; the new interval in seconds.
    SlowDown(u64),
    Token(AccessToken),
}

/// Whether another poll may be made after `elapsed_nanos` of a device code
/// that lives `expires_in_nanos`: a cancelled flow stops first, then an
/// expired one.
pub fn ensure_poll_allowed(elapsed_nanos: u128, expires_in_nanos: u128, cancelled: bool) -> (r: Result<
    (),
    InfrastructureError,
>)
    ensures
        cancelled ==> r matches Err(InfrastructureError::Cancelled),
        !cancelled && elapsed_nanos >= expires_in_nanos ==> r matches Err(
            InfrastructureError::OAuthExpired,
        ),
        !cancelled && elapsed_nanos < expires_in_nanos ==> r is Ok,
{
    if cancelled {
        Err(InfrastructureError::Cancelled)
    } else if elapsed_nanos >= expires_in_nanos {
        Err(InfrastructureError::OAuthExpired)
    } else {
        Ok(())
    }
}

} // verus!
