//! The ways in which the library's operations fail.
use vstd::prelude::*;

verus! {

/// An error of `serde_json`, carried through unchanged.
#[verifier::external_type_specification]
#[verifier::external_body]
pub struct ExJsonError(serde_json::Error);

/// Why a search, a category lookup or an item lookup failed.
#[derive(Debug)]
pub enum FinnError {
    /// The search text is blank.
    EmptyQuery,
    /// FINN's data could not be decoded.
    Json(serde_json::Error),
    /// An ad id in FINN's data is not a number.
    InvalidAdId(String),
    /// The text given for an item is neither an ad id nor an ad address.
    InvalidItemIdentifier(String),
    /// The item page holds no hydration data.
    MissingHydrationData,
    /// No category fits the text.
    UnknownCategory { input: String, suggestions: String },
    /// Several categories fit the text.
    AmbiguousCategory { input: String, matches: String },
}

} // verus!
