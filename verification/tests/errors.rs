use axum::http::StatusCode;
use pod_pool::error::ApiError;
use pod_pool::types::CommonError;
use pod_pool::worker_error::WorkerError;

#[test]
fn test_error_no_workers() {
    let err = ApiError::NoWorkers;
    assert_eq!(err.status_code(), StatusCode::SERVICE_UNAVAILABLE.as_u16());
}

#[test]
fn test_error_worker_request() {
    let err = ApiError::WorkerRequest("timeout".to_string());
    assert_eq!(err.status_code(), StatusCode::BAD_GATEWAY.as_u16());
}

#[test]
fn test_error_kubernetes() {
    let err = ApiError::Kubernetes("connection failed".to_string());
    assert_eq!(err.status_code(), StatusCode::INTERNAL_SERVER_ERROR.as_u16());
}

#[test]
fn test_error_invalid_input() {
    let err = ApiError::InvalidInput("missing field".to_string());
    assert_eq!(err.status_code(), StatusCode::BAD_REQUEST.as_u16());
}

#[test]
fn test_error_internal() {
    let err = ApiError::Internal("unexpected state".to_string());
    assert_eq!(err.status_code(), StatusCode::INTERNAL_SERVER_ERROR.as_u16());
}

#[test]
fn api_error_status_codes_are_exact() {
    assert_eq!(ApiError::NoWorkers.status_code(), 503);
    assert_eq!(ApiError::WorkerRequest(String::new()).status_code(), 502);
    assert_eq!(ApiError::Kubernetes(String::new()).status_code(), 500);
    assert_eq!(ApiError::InvalidInput(String::new()).status_code(), 400);
    assert_eq!(ApiError::Internal(String::new()).status_code(), 500);
}

#[test]
fn api_error_messages() {
    assert_eq!(ApiError::NoWorkers.message(), "No available worker pods");
    assert_eq!(
        ApiError::WorkerRequest("timeout".to_string()).message(),
        "Worker request failed: timeout"
    );
    assert_eq!(
        ApiError::Kubernetes("connection failed".to_string()).message(),
        "Kubernetes error: connection failed"
    );
    assert_eq!(
        ApiError::InvalidInput("missing field".to_string()).message(),
        "Invalid input: missing field"
    );
    assert_eq!(
        ApiError::Internal("unexpected state".to_string()).message(),
        "Internal error: unexpected state"
    );
}

#[test]
fn version_conflicts_are_told_by_their_text() {
    assert!(ApiError::Kubernetes("Resource version mismatch: expected 1, got 2".to_string())
        .is_version_conflict());
    assert!(ApiError::Kubernetes("the server reported a conflict".to_string())
        .is_version_conflict());
    assert!(ApiError::Kubernetes("conflict".to_string()).is_version_conflict());
    assert!(!ApiError::Kubernetes("connection refused".to_string()).is_version_conflict());
    assert!(!ApiError::Kubernetes("version mismatc".to_string()).is_version_conflict());
    assert!(!ApiError::Kubernetes(String::new()).is_version_conflict());
    // Only a directory failure can be a conflict.
    assert!(!ApiError::Internal("conflict".to_string()).is_version_conflict());
    assert!(!ApiError::WorkerRequest("version mismatch".to_string()).is_version_conflict());
    assert!(!ApiError::NoWorkers.is_version_conflict());
}

#[test]
fn test_serialization_error() {
    let json_err = serde_json::from_str::<serde_json::Value>("invalid json");
    assert!(json_err.is_err());

    let common_err = CommonError::Serialization(json_err.unwrap_err().to_string());
    assert!(common_err.message().contains("Serialization error"));
}

#[test]
fn test_invalid_data_error() {
    let err = CommonError::InvalidData("test error".to_string());
    assert_eq!(err.message(), "Invalid data: test error");
}

#[test]
fn test_worker_error_display() {
    let err = WorkerError::NoMatch;
    assert_eq!(err.message(), "No match found");

    let err = WorkerError::InvalidInput("bad data".to_string());
    assert_eq!(err.message(), "Invalid input: bad data");

    let err = WorkerError::Image("decode failed".to_string());
    assert_eq!(err.message(), "Image processing error: decode failed");
}

#[test]
fn test_worker_error_from_io() {
    let io_err = std::io::Error::new(std::io::ErrorKind::NotFound, "file not found");
    let worker_err = WorkerError::Io(io_err.to_string());
    assert!(worker_err.message().contains("IO error"));
}

#[test]
fn test_worker_error_from_json() {
    let json_err = serde_json::from_str::<serde_json::Value>("invalid").unwrap_err();
    let worker_err = WorkerError::Json(json_err.to_string());
    assert!(worker_err.message().contains("JSON error"));
}

#[test]
fn worker_error_responses() {
    let no_match = WorkerError::NoMatch;
    assert_eq!(no_match.status_code(), 404);
    assert_eq!(no_match.error_code(), "no_match");
    assert_eq!(no_match.response_message(), "No matching face found");

    let invalid = WorkerError::InvalidInput("Invalid base64: bad".to_string());
    assert_eq!(invalid.status_code(), 400);
    assert_eq!(invalid.error_code(), "invalid_input");
    assert_eq!(invalid.response_message(), "Invalid base64: bad");

    let model = WorkerError::Model("Inference failed".to_string());
    assert_eq!(model.status_code(), 500);
    assert_eq!(model.error_code(), "internal_error");
    assert_eq!(model.response_message(), "Model error: Inference failed");

    let io = WorkerError::Io("gone".to_string());
    assert_eq!(io.status_code(), 500);
    assert_eq!(io.response_message(), "IO error: gone");
    assert_eq!(WorkerError::Json("eof".to_string()).message(), "JSON error: eof");
    assert_eq!(WorkerError::Internal("x".to_string()).message(), "Internal error: x");
    assert_eq!(WorkerError::Image("x".to_string()).status_code(), 500);
}
