//! The engine's error taxonomy.
//!
//! Every per-item failure is recoverable: a source that fails is skipped
//! or replaced by the next one, and a connection whose queue fails is
//! pruned. Subscribers never see error payloads.

use vstd::prelude::*;

verus! {

/// Failures the engine reports to its callers.
#[derive(Debug)]
pub enum AppError {
    /// A price or currency source failed or returned a non-success status.
    DataSourceUnavailable(String),
    /// A third-party rate limit was exceeded.
    RateLimitExceeded(String),
    /// Required configuration, such as a credential, is absent.
    Configuration(String),
    /// A source returned a payload missing an expected field.
    Validation(String),
}

impl AppError {
    /// The error's descriptive text.
    pub fn message(&self) -> (r: &String)
        ensures
            match *self {
                AppError::DataSourceUnavailable(m) => r@ == m@,
                AppError::RateLimitExceeded(m) => r@ == m@,
                AppError::Configuration(m) => r@ == m@,
                AppError::Validation(m) => r@ == m@,
            },
    {
        match self {
            AppError::DataSourceUnavailable(m) => m,
            AppError::RateLimitExceeded(m) => m,
            AppError::Configuration(m) => m,
            AppError::Validation(m) => m,
        }
    }
}

} // verus!
