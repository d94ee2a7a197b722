//! Where the OAuth token is kept: the macOS Keychain, under a fixed service
//! and account. What each Keychain call's result means is decided here.
use super::transport::AccessToken;
use crate::infrastructure::InfrastructureError;
use vstd::prelude::*;

verus! {

/// The Keychain service the token is stored under.
pub const SERVICE: &'static str = "com.kettle.app.github";

/// The Keychain account the token is stored under.
pub const ACCOUNT: &'static str = "oauth-token";

/// The Security framework's status for a missing item (`errSecItemNotFound`).
pub const ITEM_NOT_FOUND: i32 = -25300;

/// The token store backed by the macOS Keychain.
#[derive(Default)]
pub struct MacKeychain;

/// A failed Keychain call: its status code and message.
pub struct KeychainFailure {
    pub code: i32,
    pub message: String,
}

/// Storing the token succeeded, or failed with the Keychain's message.
pub fn store_outcome(result: Result<(), KeychainFailure>) -> (r: Result<(), InfrastructureError>)
    ensures
        result is Ok <==> r is Ok,
        result matches Err(f) ==> (r matches Err(InfrastructureError::Keychain(m)) && m@ == f.message@),
{
    match result {
        Ok(()) => Ok(()),
        Err(failure) => Err(InfrastructureError::Keychain(failure.message)),
    }
}

/// Reading the token: its bytes must be UTF-8; a missing item is no token;
/// any other failure keeps the Keychain's message. `text` is the bytes read
/// as UTF-8, when they are.
pub fn load_outcome(result: Result<Option<String>, KeychainFailure>) -> (r: Result<
    Option<AccessToken>,
    InfrastructureError,
>)
    ensures
        result matches Ok(Some(t)) ==> (r matches Ok(Some(token)) && token.secret() == t@),
        result matches Ok(None) ==> (r matches Err(InfrastructureError::InvalidUtf8(what)) && what@
            == "Keychain OAuth token"@),
        result matches Err(f) ==> (if f.code == ITEM_NOT_FOUND {
            r matches Ok(None)
        } else {
            (r matches Err(InfrastructureError::Keychain(m)) && m@ == f.message@)
        }),
{
    match result {
        Ok(Some(text)) => Ok(Some(AccessToken::new(text))),
        Ok(None) => Err(InfrastructureError::InvalidUtf8("Keychain OAuth token")),
        Err(failure) => {
            if failure.code == ITEM_NOT_FOUND {
                Ok(None)
            } else {
                Err(InfrastructureError::Keychain(failure.message))
            }
        },
    }
}

/// Deleting the token: deleting a token that is not there succeeds.
pub fn delete_outcome(result: Result<(), KeychainFailure>) -> (r: Result<(), InfrastructureError>)
    ensures
        result is Ok ==> r is Ok,
        result matches Err(f) ==> (if f.code == ITEM_NOT_FOUND {
            r is Ok
        } else {
            (r matches Err(InfrastructureError::Keychain(m)) && m@ == f.message@)
        }),
{
    match result {
        Ok(()) => Ok(()),
        Err(failure) => {
            if failure.code == ITEM_NOT_FOUND {
                Ok(())
            } else {
                Err(InfrastructureError::Keychain(failure.message))
            }
        },
    }
}

} // verus!
