//! Error taxonomy of the resolver pipeline. Every error is terminal for
//! the resolution that raised it: nothing here retries.

use vstd::prelude::*;

verus! {

/// Why a resolution, a parse or a verification failed.
#[derive(Debug, Clone, PartialEq, Eq)]
pub enum ResolveError {
    /// The repository registry lacks an entry or a parameter the provider
    /// needs; carries a description of what is missing.
    Configuration(String),
    /// A transport failure or a non-success status; carries the offending
    /// URL as context.
    Network(String),
    /// Upstream content did not match the expected pattern or schema;
    /// carries the offending URL or input as context.
    Parse(String),
    /// A narrowing step left no candidate; carries every filter value
    /// chosen so far, in the order it was chosen, for diagnosis.
    EmptyResult(Vec<String>),
    /// The downloaded bytes hash to a different digest than the upstream
    /// manifest promised; names both values.
    ChecksumMismatch { expected: String, actual: String },
    /// The operator aborted a prompt; the whole resolution fails.
    OperatorCancelled,
}

/// Why loading or consulting the repository registry failed.
#[derive(Debug, Clone, PartialEq, Eq)]
pub enum ReposError {
    /// The registry was consulted before any configuration was loaded.
    NotInitialized,
    /// A second load was attempted after the registry was already filled.
    AlreadyInitialized,
    /// The named environment variable was absent.
    MissingEnv(String),
    /// Reading the configuration file failed; carries the description.
    Io(String),
    /// Decoding the configuration document failed; carries the description.
    Json(String),
}

} // verus!
