//! The library's error type.
use vstd::prelude::*;
use vstd::std_specs::convert::FromSpecImpl;
use vstd::string::StringExecFns;
use crate::text::{decimal, push_decimal};

verus! {

/// `std::io::Error`, carried by `RecallError::IoError`.
#[verifier::external_type_specification]
#[verifier::external_body]
pub struct ExIoError(std::io::Error);

/// `serde_json::Error`, carried by `RecallError::SerializationError`.
#[verifier::external_type_specification]
#[verifier::external_body]
pub struct ExJsonError(serde_json::Error);

/// `reqwest::Error`, carried by `RecallError::ReqwestError`.
#[verifier::external_type_specification]
#[verifier::external_body]
pub struct ExReqwestError(reqwest::Error);

#[derive(Debug)]
pub enum RecallError {
    DimensionMismatch { query: usize, stored: usize },
    VectorAlreadyExists,
    IoError(std::io::Error),
    SerializationError(serde_json::Error),
    ReqwestError(reqwest::Error),
}

impl From<std::io::Error> for RecallError {
    fn from(error: std::io::Error) -> (r: Self) {
        RecallError::IoError(error)
    }
}

impl FromSpecImpl<std::io::Error> for RecallError {
    open spec fn obeys_from_spec() -> bool {
        true
    }

    open spec fn from_spec(v: std::io::Error) -> Self {
        RecallError::IoError(v)
    }
}

impl From<serde_json::Error> for RecallError {
    fn from(error: serde_json::Error) -> (r: Self) {
        RecallError::SerializationError(error)
    }
}

impl FromSpecImpl<serde_json::Error> for RecallError {
    open spec fn obeys_from_spec() -> bool {
        true
    }

    open spec fn from_spec(v: serde_json::Error) -> Self {
        RecallError::SerializationError(v)
    }
}

impl From<reqwest::Error> for RecallError {
    fn from(error: reqwest::Error) -> (r: Self) {
        RecallError::ReqwestError(error)
    }
}

impl FromSpecImpl<reqwest::Error> for RecallError {
    open spec fn obeys_from_spec() -> bool {
        true
    }

    open spec fn from_spec(v: reqwest::Error) -> Self {
        RecallError::ReqwestError(v)
    }
}

/// The text that `std::io::Error`'s `Display` implementation writes
/// (`format!("{}", e)`). Nothing is claimed of that text: it comes from the
/// operating system or from whoever made the error.
#[verifier::external_body]
fn io_error_text(e: &std::io::Error) -> String {
    format!("{}", e)
}

/// The text that `serde_json::Error`'s `Display` implementation writes
/// (`format!("{}", e)`). Nothing is claimed of that text.
#[verifier::external_body]
fn json_error_text(e: &serde_json::Error) -> String {
    format!("{}", e)
}

/// The text that `reqwest::Error`'s `Display` implementation writes
/// (`format!("{}", e)`). Nothing is claimed of that text.
#[verifier::external_body]
fn reqwest_error_text(e: &reqwest::Error) -> String {
    format!("{}", e)
}

impl RecallError {
    /// The message describing the error.
    pub fn message(&self) -> (r: String)
        ensures
            match self {
                RecallError::DimensionMismatch { query, stored } => r@ == "embedding dimension mismatch: query="@
                    + decimal(*query as nat) + ", stored="@ + decimal(*stored as nat),
                RecallError::VectorAlreadyExists => r@ == "vector already exists"@,
                RecallError::IoError(_) => "I/O error: "@.is_prefix_of(r@),
                RecallError::SerializationError(_) => "serialization error: "@.is_prefix_of(r@),
                RecallError::ReqwestError(_) => "embedding request error: "@.is_prefix_of(r@),
            },
    {
        match self {
            RecallError::DimensionMismatch { query, stored } => {
                let mut r = "embedding dimension mismatch: query=".to_owned();
                push_decimal(&mut r, *query);
                r.append(", stored=");
                push_decimal(&mut r, *stored);
                r
            },
            RecallError::VectorAlreadyExists => "vector already exists".to_owned(),
            RecallError::IoError(e) => {
                let r = "I/O error: ".to_owned();
                let r = r.concat(io_error_text(e).as_str());
                assert("I/O error: "@.is_prefix_of(r@));
                r
            },
            RecallError::SerializationError(e) => {
                let r = "serialization error: ".to_owned();
                let r = r.concat(json_error_text(e).as_str());
                r
            },
            RecallError::ReqwestError(e) => {
                let r = "embedding request error: ".to_owned();
                let r = r.concat(reqwest_error_text(e).as_str());
                r
            },
        }
    }
}

/// Checks that a query and a stored vector have the same number of
/// components, as cosine similarity needs.
pub fn check_dimensions(query: usize, stored: usize) -> (r: Result<(), RecallError>)
    ensures
        r is Ok <==> query == stored,
        r matches Err(e) ==> (e matches RecallError::DimensionMismatch { query: q, stored: s } && q == query
            && s == stored),
{
    if query != stored {
        Err(RecallError::DimensionMismatch { query, stored })
    } else {
        Ok(())
    }
}

} // verus!
