//! The messages that the front end exchanges with its clients, and the
//! failures that both programs share.
use crate::error::prefixed;
use vstd::prelude::*;
use vstd::string::*;

verus! {

/// A failure that both programs know. A failure of encoding or decoding
/// carries the text of what went wrong.
#[derive(Debug, PartialEq, Eq)]
pub enum CommonError {
    Serialization(String),
    InvalidData(String),
}

impl CommonError {
    /// The sentence that describes the failure.
    pub open spec fn message_of(self) -> Seq<char> {
        match self {
            CommonError::Serialization(detail) => "Serialization error: "@ + detail@,
            CommonError::InvalidData(detail) => "Invalid data: "@ + detail@,
        }
    }

    /// The sentence that describes the failure.
    pub fn message(&self) -> (text: String)
        ensures
            text@ == self.message_of(),
    {
        match self {
            CommonError::Serialization(detail) => prefixed(
                "Serialization error: ",
                detail.as_str(),
            ),
            CommonError::InvalidData(detail) => prefixed("Invalid data: ", detail.as_str()),
        }
    }
}

/// A request to authenticate the face in an image.
#[derive(Debug, Clone)]
pub struct AuthRequest {
    pub image_base64: String,
}

/// The answer to a request that failed.
#[derive(Debug, Clone)]
pub struct AuthError {
    pub error: String,
    pub message: String,
    pub duration_ms: Option<u64>,
}

} // verus!
