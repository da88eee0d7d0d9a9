//! The library's error type.

use vstd::prelude::*;

verus! {

#[verifier::external_type_specification]
#[verifier::external_body]
pub struct ExReqwestError(reqwest::Error);

#[verifier::external_type_specification]
#[verifier::external_body]
pub struct ExSerdeJsonError(serde_json::Error);

/// What can go wrong when talking to AnkiConnect.
#[derive(Debug)]
pub enum AnkiError {
    /// The HTTP request failed.
    Reqwest(reqwest::Error),
    /// A JSON value could not be serialized or deserialized.
    Json(serde_json::Error),
    /// AnkiConnect answered with an error.
    Api(String),
}

/// The result type of the library.
pub type Result<T> = std::result::Result<T, AnkiError>;

} // verus!
