//! Error taxonomy of the runtime clients: invalid caller input, the two
//! distinguished HTTP statuses, parse failures, and other network
//! failures.

use vstd::prelude::*;

verus! {

/// Errors of the content service client.
#[derive(Debug, PartialEq)]
pub enum ContentServiceError {
    /// The transport failed before any status was received.
    RequestError(String),
    /// The manifest body was not valid JSON.
    ParseError(String),
    /// The resource answered with status 404.
    NotFound,
    /// The resource answered with status 403.
    RateLimited,
    /// A required string argument was empty or blank.
    InvalidInput(String),
    /// Any other non-success status or an unreadable body.
    NetworkError(String),
}

/// Errors of the GitHub client.
#[derive(Debug, PartialEq)]
pub enum GithubError {
    /// The transport failed before any status was received.
    RequestError(String),
    /// A response body was not the expected JSON.
    ParseError(String),
    /// The resource answered with status 404.
    NotFound,
    /// The resource answered with status 403.
    RateLimited,
    /// A required string argument was empty or blank.
    InvalidInput(String),
    /// Any other non-success status or an unreadable body.
    NetworkError(String),
}

} // verus!
