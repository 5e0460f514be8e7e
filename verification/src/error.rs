//! The failures of the front end, and how they are told apart.
use crate::text::{contains, contains_text};
use vstd::prelude::*;
use vstd::string::*;

verus! {

/// A failure, as plain values.
pub ghost enum ApiErrorView {
    NoWorkers,
    WorkerRequest(Seq<char>),
    Kubernetes(Seq<char>),
    InvalidInput(Seq<char>),
    Internal(Seq<char>),
}

impl ApiErrorView {
    /// The HTTP status under which the failure is reported.
    pub open spec fn status_code(self) -> u16 {
        match self {
            ApiErrorView::NoWorkers => 503,
            ApiErrorView::WorkerRequest(_) => 502,
            ApiErrorView::Kubernetes(_) => 500,
            ApiErrorView::InvalidInput(_) => 400,
            ApiErrorView::Internal(_) => 500,
        }
    }

    /// The sentence that reports the failure.
    pub open spec fn message(self) -> Seq<char> {
        match self {
            ApiErrorView::NoWorkers => "No available worker pods"@,
            ApiErrorView::WorkerRequest(detail) => "Worker request failed: "@ + detail,
            ApiErrorView::Kubernetes(detail) => "Kubernetes error: "@ + detail,
            ApiErrorView::InvalidInput(detail) => "Invalid input: "@ + detail,
            ApiErrorView::Internal(detail) => "Internal error: "@ + detail,
        }
    }

    /// Whether the directory refused a write because the pod had changed
    /// since it was read: a directory failure whose text names a version
    /// mismatch or a conflict.
    pub open spec fn is_version_conflict(self) -> bool {
        match self {
            ApiErrorView::Kubernetes(detail) => contains_text(detail, "version mismatch"@)
                || contains_text(detail, "conflict"@),
            _ => false,
        }
    }
}

/// The failure that reports a pod without name.
pub open spec fn missing_name() -> ApiErrorView {
    ApiErrorView::Internal("Pod missing name"@)
}

/// The failure that reports a pod without resource version.
pub open spec fn missing_version() -> ApiErrorView {
    ApiErrorView::Internal("Pod missing resource version"@)
}

/// The failure that reports a pod without address.
pub open spec fn missing_ip() -> ApiErrorView {
    ApiErrorView::Internal("Pod missing IP address"@)
}

/// A failure of the front end.
#[derive(Debug, PartialEq, Eq)]
pub enum ApiError {
    /// No pod could be leased.
    NoWorkers,
    /// The request to the leased pod failed.
    WorkerRequest(String),
    /// The directory failed or refused.
    Kubernetes(String),
    /// The client's request was malformed.
    InvalidInput(String),
    /// A pod lacked what it must have, or the front end itself failed.
    Internal(String),
}

pub type ApiResult<T> = Result<T, ApiError>;

impl View for ApiError {
    type V = ApiErrorView;

    open spec fn view(&self) -> ApiErrorView {
        match self {
            ApiError::NoWorkers => ApiErrorView::NoWorkers,
            ApiError::WorkerRequest(detail) => ApiErrorView::WorkerRequest(detail@),
            ApiError::Kubernetes(detail) => ApiErrorView::Kubernetes(detail@),
            ApiError::InvalidInput(detail) => ApiErrorView::InvalidInput(detail@),
            ApiError::Internal(detail) => ApiErrorView::Internal(detail@),
        }
    }
}

/// `prefix` followed by `detail`.
pub fn prefixed(prefix: &str, detail: &str) -> (text: String)
    ensures
        text@ == prefix@ + detail@,
{
    let mut text = String::from_str(prefix);
    text.append(detail);
    text
}

impl ApiError {
    /// The HTTP status under which the failure is reported.
    pub fn status_code(&self) -> (code: u16)
        ensures
            code == self@.status_code(),
    {
        match self {
            ApiError::NoWorkers => 503,
            ApiError::WorkerRequest(_) => 502,
            ApiError::Kubernetes(_) => 500,
            ApiError::InvalidInput(_) => 400,
            ApiError::Internal(_) => 500,
        }
    }

    /// The sentence that reports the failure.
    pub fn message(&self) -> (text: String)
        ensures
            text@ == self@.message(),
    {
        match self {
            ApiError::NoWorkers => String::from_str("No available worker pods"),
            ApiError::WorkerRequest(detail) => prefixed("Worker request failed: ", detail.as_str()),
            ApiError::Kubernetes(detail) => prefixed("Kubernetes error: ", detail.as_str()),
            ApiError::InvalidInput(detail) => prefixed("Invalid input: ", detail.as_str()),
            ApiError::Internal(detail) => prefixed("Internal error: ", detail.as_str()),
        }
    }

    /// Whether the directory refused a write because the pod had changed
    /// since it was read.
    pub fn is_version_conflict(&self) -> (conflict: bool)
        ensures
            conflict == self@.is_version_conflict(),
    {
        match self {
            ApiError::Kubernetes(detail) => contains(detail.as_str(), "version mismatch")
                || contains(detail.as_str(), "conflict"),
            _ => false,
        }
    }
}

} // verus!
