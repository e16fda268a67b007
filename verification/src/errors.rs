//! Error taxonomy of the collection run.
//!
//! Fatal errors abort the run; a per-class fetch failure is isolated and the
//! run continues; publishing the status record is best-effort and never fails
//! the run itself.

use vstd::prelude::*;

verus! {

/// Everything that can go wrong during one collection run.
#[derive(Clone, PartialEq, Eq, Debug)]
pub enum RunError {
    /// A required configuration value is missing (fatal, before any work).
    ConfigError(String),
    /// Logging in to the scheduling source failed (fatal).
    AuthError(String),
    /// Fetching data from the scheduling source failed. Fatal when the class
    /// list itself cannot be enumerated; per-class lesson fetches are isolated
    /// by the snapshot builder instead and never surface as this error.
    ProviderFetchError(String),
    /// An existing archive partition could not be decoded (fatal).
    ArchiveCorruptError,
    /// Creating the partition directory or writing the partition failed (fatal).
    ArchiveIOError(String),
    /// The status record could not be published (best-effort, never fatal).
    StatusPublishError(String),
}

impl RunError {
    /// A human-readable description naming the failing stage.
    pub fn describe(&self) -> (r: String)
        ensures
            r@ == self.describe_spec(),
    {
        let mut out = String::new();
        match self {
            RunError::ConfigError(name) => {
                out.append("missing configuration value: ");
                out.append(name.as_str());
            },
            RunError::AuthError(msg) => {
                out.append("login failed: ");
                out.append(msg.as_str());
            },
            RunError::ProviderFetchError(msg) => {
                out.append("fetching from the scheduling source failed: ");
                out.append(msg.as_str());
            },
            RunError::ArchiveCorruptError => {
                out.append("existing archive partition is unreadable");
            },
            RunError::ArchiveIOError(msg) => {
                out.append("archive directory or write failure: ");
                out.append(msg.as_str());
            },
            RunError::StatusPublishError(msg) => {
                out.append("status record could not be published: ");
                out.append(msg.as_str());
            },
        }
        out
    }

    /// What `describe` returns, for each variant.
    pub open spec fn describe_spec(&self) -> Seq<char> {
        match self {
            RunError::ConfigError(name) => "missing configuration value: "@ + name@,
            RunError::AuthError(msg) => "login failed: "@ + msg@,
            RunError::ProviderFetchError(msg) => "fetching from the scheduling source failed: "@
                + msg@,
            RunError::ArchiveCorruptError => "existing archive partition is unreadable"@,
            RunError::ArchiveIOError(msg) => "archive directory or write failure: "@ + msg@,
            RunError::StatusPublishError(msg) => "status record could not be published: "@ + msg@,
        }
    }
}

} // verus!
