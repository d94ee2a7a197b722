mod keychain;
mod oauth;
mod secret;
mod transport;

pub use keychain::{
    delete_outcome, load_outcome, store_outcome, KeychainFailure, MacKeychain, ACCOUNT, SERVICE,
};
pub use oauth::{ensure_poll_allowed, DeviceAuthorization, DeviceAuthorizationView, PollResult};
pub use transport::{
    classify_token_response, classify_transport_error, response_failure, transport_failure, AccessToken, ErrorResponse,
    TokenResponse,
};
use vstd::prelude::*;

verus! {

/// The OAuth app's client id; Device Flow has no client secret.
pub const CLIENT_ID: &'static str = "Ov23liiLF3n6sxqOh6O9";

/// The only scope requested: the user's profile.
pub const SCOPE: &'static str = "read:user";

} // verus!
