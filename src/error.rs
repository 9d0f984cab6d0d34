use vstd::prelude::*;

verus! {

/// One entry of a structured error payload returned by the service.
#[derive(Debug, Clone, PartialEq, Eq)]
pub struct ErrorCode {
    /// The numeric error code; `88` means that a rate limit was exceeded.
    pub code: i32,
    /// The message that accompanies the code.
    pub message: String,
}

/// The reserved service error code that signals an exceeded rate limit.
pub const RATE_LIMIT_EXCEEDED: i32 = 88;

/// Every failure that the library reports.
#[derive(Debug, Clone, PartialEq, Eq)]
pub enum Error {
    /// The connection, TLS session or stream failed; the text describes the failure.
    Transport(String),
    /// The response bytes were not valid UTF-8.
    MalformedBody,
    /// The service answered with a structured error payload unrelated to rate limiting.
    ServiceError(Vec<ErrorCode>),
    /// The service reported an exceeded rate limit; the value is the reset timestamp.
    RateLimited(i32),
    /// A non-success status came with a body that is not a structured error payload.
    BadStatus(u16),
    /// The body did not match the expected schema; the text describes the mismatch.
    DecodeError(String),
    /// A URL handed to the replay helper was not a valid query URL for its endpoint.
    BadUrl,
    /// A header value held characters other than visible ASCII.
    HeaderConvert,
    /// A rate-limit header value was not a decimal 32-bit integer.
    HeaderParse,
    /// An exchange was driven after it had already completed.
    FutureAlreadyCompleted,
}

} // verus!
