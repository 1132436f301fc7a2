//! The failures a crawl distinguishes.
use vstd::prelude::*;

verus! {

/// What went wrong, by the unit of work it aborts.
#[derive(Debug, Clone, Copy, PartialEq, Eq, Structural)]
pub enum Error {
    /// The login was rejected, or the page that confirms it lacked its signal.
    /// Every target of the provider is skipped for the run.
    AuthenticationFailure,
    /// A page or an API answer did not have the expected structure. Aborts the
    /// current target.
    ExtractionFailure,
    /// A transport or HTTP error. During listing it aborts the target; during
    /// an asset fetch only the episode.
    NetworkFailure,
    /// The store refused a write. Counted per episode; aborts nothing.
    PersistenceFailure,
}

impl Error {
    /// A short description of the failure.
    pub fn message(&self) -> (r: &'static str) {
        match self {
            Error::AuthenticationFailure => "authentication failure",
            Error::ExtractionFailure => "expected structure absent",
            Error::NetworkFailure => "network failure",
            Error::PersistenceFailure => "store write failure",
        }
    }
}

} // verus!
