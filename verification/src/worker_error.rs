//! The failures of a worker, and how it reports them.
use crate::error::prefixed;
use vstd::prelude::*;
use vstd::string::*;

verus! {

/// A failure of a worker, as plain values.
pub ghost enum WorkerErrorView {
    Io(Seq<char>),
    Json(Seq<char>),
    Image(Seq<char>),
    Model(Seq<char>),
    NoMatch,
    InvalidInput(Seq<char>),
    Internal(Seq<char>),
}

impl WorkerErrorView {
    /// The sentence that describes the failure.
    pub open spec fn message(self) -> Seq<char> {
        match self {
            WorkerErrorView::Io(detail) => "IO error: "@ + detail,
            WorkerErrorView::Json(detail) => "JSON error: "@ + detail,
            WorkerErrorView::Image(detail) => "Image processing error: "@ + detail,
            WorkerErrorView::Model(detail) => "Model error: "@ + detail,
            WorkerErrorView::NoMatch => "No match found"@,
            WorkerErrorView::InvalidInput(detail) => "Invalid input: "@ + detail,
            WorkerErrorView::Internal(detail) => "Internal error: "@ + detail,
        }
    }

    /// The HTTP status under which the failure is reported.
    pub open spec fn status_code(self) -> u16 {
        match self {
            WorkerErrorView::NoMatch => 404,
            WorkerErrorView::InvalidInput(_) => 400,
            _ => 500,
        }
    }

    /// The short code that names the kind of failure to the client.
    pub open spec fn error_code(self) -> Seq<char> {
        match self {
            WorkerErrorView::NoMatch => "no_match"@,
            WorkerErrorView::InvalidInput(_) => "invalid_input"@,
            _ => "internal_error"@,
        }
    }

    /// The message that the client is given.
    pub open spec fn response_message(self) -> Seq<char> {
        match self {
            WorkerErrorView::NoMatch => "No matching face found"@,
            WorkerErrorView::InvalidInput(detail) => detail,
            _ => self.message(),
        }
    }
}

/// A failure of a worker. Failures of reading and of decoding carry the
/// text of what went wrong.
#[derive(Debug, PartialEq, Eq)]
pub enum WorkerError {
    Io(String),
    Json(String),
    Image(String),
    Model(String),
    NoMatch,
    InvalidInput(String),
    Internal(String),
}

impl View for WorkerError {
    type V = WorkerErrorView;

    open spec fn view(&self) -> WorkerErrorView {
        match self {
            WorkerError::Io(detail) => WorkerErrorView::Io(detail@),
            WorkerError::Json(detail) => WorkerErrorView::Json(detail@),
            WorkerError::Image(detail) => WorkerErrorView::Image(detail@),
            WorkerError::Model(detail) => WorkerErrorView::Model(detail@),
            WorkerError::NoMatch => WorkerErrorView::NoMatch,
            WorkerError::InvalidInput(detail) => WorkerErrorView::InvalidInput(detail@),
            WorkerError::Internal(detail) => WorkerErrorView::Internal(detail@),
        }
    }
}

pub type WorkerResult<T> = Result<T, WorkerError>;

impl WorkerError {
    /// The sentence that describes the failure.
    pub fn message(&self) -> (text: String)
        ensures
            text@ == self@.message(),
    {
        match self {
            WorkerError::Io(detail) => prefixed("IO error: ", detail.as_str()),
            WorkerError::Json(detail) => prefixed("JSON error: ", detail.as_str()),
            WorkerError::Image(detail) => prefixed("Image processing error: ", detail.as_str()),
            WorkerError::Model(detail) => prefixed("Model error: ", detail.as_str()),
            WorkerError::NoMatch => String::from_str("No match found"),
            WorkerError::InvalidInput(detail) => prefixed("Invalid input: ", detail.as_str()),
            WorkerError::Internal(detail) => prefixed("Internal error: ", detail.as_str()),
        }
    }

    /// The HTTP status under which the failure is reported.
    pub fn status_code(&self) -> (code: u16)
        ensures
            code == self@.status_code(),
    {
        match self {
            WorkerError::NoMatch => 404,
            WorkerError::InvalidInput(_) => 400,
            _ => 500,
        }
    }

    /// The short code that names the kind of failure to the client.
    pub fn error_code(&self) -> (code: &'static str)
        ensures
            code@ == self@.error_code(),
    {
        match self {
            WorkerError::NoMatch => "no_match",
            WorkerError::InvalidInput(_) => "invalid_input",
            _ => "internal_error",
        }
    }

    /// The message that the client is given.
    pub fn response_message(&self) -> (text: String)
        ensures
            text@ == self@.response_message(),
    {
        match self {
            WorkerError::NoMatch => String::from_str("No matching face found"),
            WorkerError::InvalidInput(detail) => detail.clone(),
            _ => self.message(),
        }
    }
}

} // verus!
