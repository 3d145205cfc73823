//! Client-side core for a cloud metering vendor's HTTP API.
//!
//! The vendor answers every request with JSON over HTTP 200, using one
//! uniform error envelope when a request fails.  This crate holds the
//! verified core of a client for that API: the query builders for the three
//! supported operations, the response decoders that tell success bodies from
//! the error envelope, and the key-taxonomy decoder that turns the vendor's
//! flat, slash-delimited field names into typed readings.  The network
//! transport itself (HTTP, rate limiting) stays outside the verified core;
//! it hands response text in and takes plain values back.

use vstd::prelude::*;

pub mod data;
pub mod json;
pub mod meters;
pub mod numtext;
pub mod strutil;
pub mod timestamp;
pub mod topics;

verus! {

/// Base URL every request is sent to.
pub const BASE_URL: &'static str = "https://api.dentcloud.io/v1";

/// Requests admitted per second by the shared token-bucket limiter.
pub const RATELIMIT_PER_SECOND: u32 = 5;

/// Burst capacity of the shared token-bucket limiter.
pub const RATELIMIT_BURST: u32 = 5;

/// Header carrying the API key on every request.
pub const API_HEADER: &'static str = "x-api-key";

/// Header carrying the key id on every request.
pub const KEY_HEADER: &'static str = "x-key-id";

/// The ways a call against the vendor API can fail.
#[derive(Debug, Clone, PartialEq)]
pub enum Error {
    /// The vendor answered with its uniform error envelope; the payload is
    /// the vendor's own message text.
    Api(String),
    /// The network request itself failed, or the HTTP status was outside the
    /// success range.  Raised only by the transport around this crate.
    Http(String),
    /// The response body matched neither the expected shape nor the error
    /// envelope; the payload describes the failure against the expected
    /// shape.
    Serialization(String),
    /// The body had the expected shape but broke the vendor's data contract:
    /// an unrecognized field-name taxonomy or an unparseable timestamp.
    Schema(String),
}

impl Error {
    /// The text a failure carries, in every variant.
    pub open spec fn spec_message(&self) -> Seq<char> {
        match self {
            Error::Api(s) => s@,
            Error::Http(s) => s@,
            Error::Serialization(s) => s@,
            Error::Schema(s) => s@,
        }
    }

    /// A short text for each failure, usable where the error is displayed.
    pub fn message(&self) -> (r: &String)
        ensures
            r@ == self.spec_message(),
    {
        match self {
            Error::Api(s) => s,
            Error::Http(s) => s,
            Error::Serialization(s) => s,
            Error::Schema(s) => s,
        }
    }
}

pub type Result<T> = core::result::Result<T, Error>;

/// Credentials for the vendor API.  The transport around this crate owns the
/// HTTP client and the shared rate limiter; this type owns what the verified
/// core decides with: the two header values sent on every call.
#[derive(Debug, Clone)]
pub struct Session {
    api_key: String,
    key_id: String,
}

impl Session {
    /// The API key this session holds.
    pub closed spec fn spec_api_key(&self) -> Seq<char> {
        self.api_key@
    }

    /// The key id this session holds.
    pub closed spec fn spec_key_id(&self) -> Seq<char> {
        self.key_id@
    }

    pub fn new(api_key: String, key_id: String) -> (s: Session)
        ensures
            s.spec_api_key() == api_key@,
            s.spec_key_id() == key_id@,
    {
        Session { api_key, key_id }
    }

    /// The value sent under the `x-api-key` header.
    pub fn api_key(&self) -> (r: &String)
        ensures
            r@ == self.spec_api_key(),
    {
        &self.api_key
    }

    /// The value sent under the `x-key-id` header.
    pub fn key_id(&self) -> (r: &String)
        ensures
            r@ == self.spec_key_id(),
    {
        &self.key_id
    }
}

} // verus!
