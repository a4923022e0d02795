//! Error taxonomy of the updater.
//!
//! Every error carries plain data, so that contracts can state exactly
//! which inputs produce which error.

use vstd::prelude::*;

verus! {

/// Errors of the provider-facing half: building a client, listing and
/// updating records.
#[derive(Debug, PartialEq, Eq)]
pub enum CloudflareError {
    /// The provider client could not be constructed; carries the reason.
    InvalidHttpClient(String),
    /// The provider returned a failure during a list or an update; the
    /// payload is the provider's own rendering of it, surfaced opaquely.
    ApiError(String),
    /// The family filter produced a number of records other than one;
    /// carries that number.
    AmbiguousOrMissing(usize),
}

/// Errors of the public-IP resolver.
#[derive(Debug, PartialEq, Eq)]
pub enum FetchPublicIPError {
    /// The HTTP exchange itself failed; carries the transport's message.
    RequestError(String),
    /// The response body is not a well-formed JSON document; carries the
    /// decoder's message.
    DeserializeError(String),
    /// The JSON document has no string field named `ip`.
    NoIPKey,
    /// The `ip` field does not parse as an IPv4 or IPv6 literal; carries
    /// the offending text.
    InvalidIPAddress(String),
}

/// Error of one whole reconcile pass: either half can fail.
#[derive(Debug, PartialEq, Eq)]
pub enum UpdateError {
    Fetch(FetchPublicIPError),
    Cloudflare(CloudflareError),
}

} // verus!
