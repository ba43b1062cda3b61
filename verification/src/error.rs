//! The library's error taxonomy.

use vstd::prelude::*;
use crate::strutil::{dec_chars, concat2};

verus! {

/// Every failure the library reports, with the payloads callers need
/// to build responses.
#[derive(Debug, Clone)]
pub enum ArcaferryError {
    /// A network operation exceeded its deadline.
    Timeout(String),
    /// The upstream rejected the credentials.
    Unauthorized(String),
    /// The upstream asked to retry after the given number of seconds.
    RateLimited(u64),
    /// A Cloudflare challenge page was served instead of data.
    CloudflareBlocked,
    /// Any other transport-level failure.
    NetworkError(String),
    /// A body could not be decoded as the expected JSON.
    InvalidJson(String),
    /// The input was not a recognizable URL or identifier.
    InvalidUrl(String),
    /// A required field was absent from an upstream payload.
    MissingField(String),
    /// The byte stream does not begin with the PNG signature.
    InvalidPngSignature,
    /// A PNG chunk was malformed.
    PngChunkError(String),
    /// A PNG carried no embedded card.
    NoCardData,
    /// A request field failed validation.
    ValidationError(String),
    /// A cached session has expired.
    SessionExpired(String),
    /// No session is cached for the platform.
    SessionNotFound(String),
    /// The downstream import endpoint could not be reached.
    ArcamageConnectionFailed(String),
    /// The downstream import endpoint runs an incompatible version.
    VersionMismatch { expected: String, actual: String },
    /// The downstream import endpoint rejected the card.
    ImportRejected(String),
    /// A local input/output failure.
    IoError(String),
    /// The browser-driving extractor failed.
    BrowserError(String),
}

/// The message text of an error, as it appears in HTTP replies.
pub open spec fn error_message_spec(e: ArcaferryError) -> Seq<char> {
    match e {
        ArcaferryError::Timeout(s) => "Network timeout: "@ + s@,
        ArcaferryError::Unauthorized(s) => "Unauthorized: "@ + s@,
        ArcaferryError::RateLimited(n) => "Rate limited: retry after "@ + dec_chars(n as nat)
            + "s"@,
        ArcaferryError::CloudflareBlocked => "Cloudflare verification required. Please provide cf_clearance cookie from your browser."@,
        ArcaferryError::NetworkError(s) => "Network error: "@ + s@,
        ArcaferryError::InvalidJson(s) => "Invalid JSON: "@ + s@,
        ArcaferryError::InvalidUrl(s) => "Invalid URL: "@ + s@,
        ArcaferryError::MissingField(s) => "Missing required field: "@ + s@,
        ArcaferryError::InvalidPngSignature => "Invalid PNG signature"@,
        ArcaferryError::PngChunkError(s) => "PNG chunk error: "@ + s@,
        ArcaferryError::NoCardData => "No card data found in PNG"@,
        ArcaferryError::ValidationError(s) => "Validation failed: "@ + s@,
        ArcaferryError::SessionExpired(s) => "Session expired for platform: "@ + s@,
        ArcaferryError::SessionNotFound(s) => "No session found for platform: "@ + s@,
        ArcaferryError::ArcamageConnectionFailed(s) => "Arcamage connection failed: "@ + s@,
        ArcaferryError::VersionMismatch { expected, actual } => "Arcamage version mismatch: expected "@
            + expected@ + ", got "@ + actual@,
        ArcaferryError::ImportRejected(s) => "Arcamage rejected import: "@ + s@,
        ArcaferryError::IoError(s) => "IO error: "@ + s@,
        ArcaferryError::BrowserError(s) => "Browser error: "@ + s@,
    }
}

impl ArcaferryError {
    /// Renders the error as the message text used in HTTP replies.
    pub fn message(&self) -> (r: String)
        ensures
            r@ == error_message_spec(*self),
    {
        match self {
            ArcaferryError::Timeout(s) => concat2("Network timeout: ", s.as_str()),
            ArcaferryError::Unauthorized(s) => concat2("Unauthorized: ", s.as_str()),
            ArcaferryError::RateLimited(n) => {
                let d = crate::strutil::u64_to_string(*n);
                let head = concat2("Rate limited: retry after ", d.as_str());
                let r = concat2(head.as_str(), "s");
                proof {
                    assert(r@ =~= error_message_spec(*self));
                }
                r
            },
            ArcaferryError::CloudflareBlocked => {
                let r = concat2(
                    "Cloudflare verification required. ",
                    "Please provide cf_clearance cookie from your browser.",
                );
                proof {
                    reveal_strlit(
                        "Cloudflare verification required. Please provide cf_clearance cookie from your browser.",
                    );
                    reveal_strlit("Cloudflare verification required. ");
                    reveal_strlit("Please provide cf_clearance cookie from your browser.");
                    assert(r@ =~= error_message_spec(*self));
                }
                r
            },
            ArcaferryError::NetworkError(s) => concat2("Network error: ", s.as_str()),
            ArcaferryError::InvalidJson(s) => concat2("Invalid JSON: ", s.as_str()),
            ArcaferryError::InvalidUrl(s) => concat2("Invalid URL: ", s.as_str()),
            ArcaferryError::MissingField(s) => concat2("Missing required field: ", s.as_str()),
            ArcaferryError::InvalidPngSignature => {
                let r = String::from_str("Invalid PNG signature");
                r
            },
            ArcaferryError::PngChunkError(s) => concat2("PNG chunk error: ", s.as_str()),
            ArcaferryError::NoCardData => {
                let r = String::from_str("No card data found in PNG");
                r
            },
            ArcaferryError::ValidationError(s) => concat2("Validation failed: ", s.as_str()),
            ArcaferryError::SessionExpired(s) => concat2(
                "Session expired for platform: ",
                s.as_str(),
            ),
            ArcaferryError::SessionNotFound(s) => concat2(
                "No session found for platform: ",
                s.as_str(),
            ),
            ArcaferryError::ArcamageConnectionFailed(s) => concat2(
                "Arcamage connection failed: ",
                s.as_str(),
            ),
            ArcaferryError::VersionMismatch { expected, actual } => {
                let head = concat2("Arcamage version mismatch: expected ", expected.as_str());
                let mid = concat2(head.as_str(), ", got ");
                let r = concat2(mid.as_str(), actual.as_str());
                proof {
                    assert(r@ =~= error_message_spec(*self));
                }
                r
            },
            ArcaferryError::ImportRejected(s) => concat2("Arcamage rejected import: ", s.as_str()),
            ArcaferryError::IoError(s) => concat2("IO error: ", s.as_str()),
            ArcaferryError::BrowserError(s) => concat2("Browser error: ", s.as_str()),
        }
    }
}

} // verus!
