//! Declarations of outside types the models carry, and small trusted
//! wrappers around them.
//!
//! Upstream objects arrive with unpredictable extra fields.  The models
//! keep those fields in an opaque `serde_json::Map` so that they
//! round-trip unchanged; the verified logic never reads them.

use vstd::prelude::*;

verus! {

/// Declares `serde_json::Value` so fields and signatures may carry it.
#[verifier::external_type_specification]
#[verifier::external_body]
pub struct ExValue(serde_json::Value);

/// Declares `serde_json::Map` so extension bags may be held opaquely.
#[verifier::external_type_specification]
#[verifier::external_body]
#[verifier::reject_recursive_types(K)]
#[verifier::reject_recursive_types(V)]
pub struct ExMap<K, V>(serde_json::Map<K, V>);

/// The opaque bag of unknown JSON fields carried through the pipeline.
pub type ExtBag = serde_json::Map<String, serde_json::Value>;

/// Relies on `serde_json::Map::new`: an empty bag.
#[verifier::external_body]
pub fn new_ext_bag() -> ExtBag {
    serde_json::Map::new()
}

/// Relies on `serde_json::Map: Clone`: the copy equals the original.
pub assume_specification[ <serde_json::Map<String, serde_json::Value> as Clone>::clone ](
    m: &serde_json::Map<String, serde_json::Value>,
) -> (r: serde_json::Map<String, serde_json::Value>)
    ensures
        r == *m,
;

/// Relies on `chrono::Utc::now().timestamp()`: seconds since the Unix
/// epoch, read from the system clock.  Nothing can be promised of the
/// value; the verified logic takes it as an argument.
#[verifier::external_body]
pub fn now_unix_seconds() -> i64 {
    chrono::Utc::now().timestamp()
}

/// Relies on `chrono::Utc::now().timestamp_millis()`: the clock in
/// milliseconds; nothing can be promised of the value.
#[verifier::external_body]
pub fn now_unix_millis() -> i64 {
    chrono::Utc::now().timestamp_millis()
}

/// What `url::Url::parse(s).path()` returns: the normalized path of
/// the URL, or `None` when the text is not a parseable absolute URL.
pub uninterp spec fn url_path_of(s: Seq<char>) -> Option<Seq<char>>;

/// Relies on `url::Url::parse` and `Url::path`: parses an absolute URL
/// and hands back its (normalized) path, a function of the text alone.
#[verifier::external_body]
pub fn url_parse_path(input: &str) -> (r: Option<String>)
    ensures
        match r {
            Some(p) => url_path_of(input@) == Some(p@),
            None => url_path_of(input@) is None,
        },
{
    match url::Url::parse(input) {
        Ok(u) => Some(u.path().to_string()),
        Err(_) => None,
    }
}

} // verus!
