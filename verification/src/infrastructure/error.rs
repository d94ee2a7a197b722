//! Failures of the Homebrew, catalog, GitHub and Keychain adapters, held as
//! plain values: paths, messages of the underlying errors, and exit codes.
use crate::text::{concat, decimal, decimal_text};
use vstd::prelude::*;

verus! {

/// What went wrong in an adapter.
#[derive(Debug)]
pub enum InfrastructureError {
    HomebrewUnavailable,
    Filesystem { path: String, source: String },
    CatalogUnavailable { reason: String },
    CatalogMalformed { path: String, source: String },
    CatalogFallback { cache: Box<InfrastructureError>, fallback: Box<InfrastructureError> },
    Invocation { program: String, source: String },
    NonZeroExit { program: String, code: Option<i32>, stdout: String, stderr: String },
    ProcessWait { program: String, source: String },
    PipeReader(String),
    NetworkTimeout,
    NetworkTransport(String),
    OAuthProtocol(String),
    OAuthDenied(String),
    OAuthExpired,
    Keychain(String),
    Cancelled,
    PrivilegeHelper(String),
    InvalidUtf8(&'static str),
    Json { context: &'static str, source: String },
}

/// `Option<i32>` as `Debug` writes it.
pub open spec fn code_text(code: Option<i32>) -> Seq<char> {
    match code {
        Some(c) => "Some("@ + decimal_text(c as int) + ")"@,
        None => "None"@,
    }
}

/// The message of an error.
pub open spec fn error_text(e: InfrastructureError) -> Seq<char>
    decreases e,
{
    match e {
        InfrastructureError::HomebrewUnavailable => "Homebrew was not found in a supported prefix"@,
        InfrastructureError::Filesystem { path, .. } => "filesystem operation failed for "@ + path@,
        InfrastructureError::CatalogUnavailable { reason } => "Homebrew catalog is unavailable: "@
            + reason@,
        InfrastructureError::CatalogMalformed { path, .. } => "Homebrew catalog at "@ + path@
            + " is malformed"@,
        InfrastructureError::CatalogFallback { cache, fallback } => "both Homebrew catalog sources failed (cache: "@
            + error_text(*cache) + "; supported fallback: "@ + error_text(*fallback) + ")"@,
        InfrastructureError::Invocation { program, .. } => "could not invoke "@ + program@,
        InfrastructureError::NonZeroExit { program, code, .. } => program@ + " exited with status "@
            + code_text(code),
        InfrastructureError::ProcessWait { program, .. } => "could not wait for "@ + program@,
        InfrastructureError::PipeReader(_) => "worker pipe reader failed"@,
        InfrastructureError::NetworkTimeout => "network request timed out"@,
        InfrastructureError::NetworkTransport(_) => "network transport failed"@,
        InfrastructureError::OAuthProtocol(d) => "OAuth protocol failure: "@ + d@,
        InfrastructureError::OAuthDenied(d) => "OAuth authorization was denied: "@ + d@,
        InfrastructureError::OAuthExpired => "OAuth authorization expired"@,
        InfrastructureError::Keychain(m) => "Keychain operation failed: "@ + m@,
        InfrastructureError::Cancelled => "operation cancelled"@,
        InfrastructureError::PrivilegeHelper(m) => "privilege helper rejected: "@ + m@,
        InfrastructureError::InvalidUtf8(s) => "invalid UTF-8 from "@ + s@,
        InfrastructureError::Json { context, .. } => "JSON response from "@ + context@
            + " was malformed"@,
    }
}

fn code_message(code: Option<i32>) -> (r: String)
    ensures
        r@ == code_text(code),
{
    match code {
        Some(c) => {
            let inner = concat("Some(", decimal(c as i64).as_str());
            concat(inner.as_str(), ")")
        },
        None => crate::text::owned("None"),
    }
}

fn join3(a: &str, b: &str, c: &str) -> (r: String)
    ensures
        r@ == a@ + b@ + c@,
{
    let ab = concat(a, b);
    concat(ab.as_str(), c)
}

impl InfrastructureError {
    /// A failed filesystem operation on `path`.
    pub fn filesystem(path: String, source: String) -> (r: InfrastructureError)
        ensures
            r == (InfrastructureError::Filesystem { path, source }),
    {
        InfrastructureError::Filesystem { path, source }
    }

    /// The message of the error, as a user reads it.
    pub fn message(&self) -> (r: String)
        ensures
            r@ == error_text(*self),
        decreases self,
    {
        match self {
            InfrastructureError::HomebrewUnavailable => crate::text::owned(
                "Homebrew was not found in a supported prefix",
            ),
            InfrastructureError::Filesystem { path, .. } => concat(
                "filesystem operation failed for ",
                path.as_str(),
            ),
            InfrastructureError::CatalogUnavailable { reason } => concat(
                "Homebrew catalog is unavailable: ",
                reason.as_str(),
            ),
            InfrastructureError::CatalogMalformed { path, .. } => join3(
                "Homebrew catalog at ",
                path.as_str(),
                " is malformed",
            ),
            InfrastructureError::CatalogFallback { cache, fallback } => {
                let first = join3(
                    "both Homebrew catalog sources failed (cache: ",
                    cache.message().as_str(),
                    "; supported fallback: ",
                );
                join3(first.as_str(), fallback.message().as_str(), ")")
            },
            InfrastructureError::Invocation { program, .. } => concat(
                "could not invoke ",
                program.as_str(),
            ),
            InfrastructureError::NonZeroExit { program, code, .. } => join3(
                program.as_str(),
                " exited with status ",
                code_message(*code).as_str(),
            ),
            InfrastructureError::ProcessWait { program, .. } => concat(
                "could not wait for ",
                program.as_str(),
            ),
            InfrastructureError::PipeReader(_) => crate::text::owned("worker pipe reader failed"),
            InfrastructureError::NetworkTimeout => crate::text::owned("network request timed out"),
            InfrastructureError::NetworkTransport(_) => crate::text::owned("network transport failed"),
            InfrastructureError::OAuthProtocol(d) => concat("OAuth protocol failure: ", d.as_str()),
            InfrastructureError::OAuthDenied(d) => concat(
                "OAuth authorization was denied: ",
                d.as_str(),
            ),
            InfrastructureError::OAuthExpired => crate::text::owned("OAuth authorization expired"),
            InfrastructureError::Keychain(m) => concat("Keychain operation failed: ", m.as_str()),
            InfrastructureError::Cancelled => crate::text::owned("operation cancelled"),
            InfrastructureError::PrivilegeHelper(m) => concat(
                "privilege helper rejected: ",
                m.as_str(),
            ),
            InfrastructureError::InvalidUtf8(s) => concat("invalid UTF-8 from ", s),
            InfrastructureError::Json { context, .. } => join3(
                "JSON response from ",
                context,
                " was malformed",
            ),
        }
    }
}

} // verus!
