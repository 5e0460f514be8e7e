use pod_pool::error::ApiError;
use pod_pool::labels::Labels;
use pod_pool::mock::MockPodOperations;
use pod_pool::pod_manager::PodManager;
use pod_pool::proxy::{leased_or_unavailable, worker_failure, worker_url};

#[test]
fn test_authenticate_handler_no_workers() {
    let mock_ops = MockPodOperations::new();
    let mut manager = PodManager::new(
        mock_ops,
        "test-ns".to_string(),
        "app=test,status=ready".to_string(),
    );

    let result = manager.acquire_pod().and_then(leased_or_unavailable);

    assert!(result.is_err());
    match result.unwrap_err() {
        ApiError::NoWorkers => {}
        e => panic!("Expected NoWorkers error, got {:?}", e),
    }
}

#[test]
fn a_leased_pod_is_handed_on() {
    let pod = MockPodOperations::create_test_pod("pod1", "test-ns", Labels::new());
    let leased = leased_or_unavailable(Some(pod)).unwrap();
    assert_eq!(leased.name.as_deref(), Some("pod1"));
}

#[test]
fn worker_url_is_built_from_the_address() {
    assert_eq!(worker_url("10.0.0.1"), "http://10.0.0.1:8080/authenticate");
    assert_eq!(worker_url(""), "http://:8080/authenticate");
}

#[test]
fn worker_failure_reports_status_and_body() {
    assert_eq!(
        worker_failure("500 Internal Server Error", "boom"),
        ApiError::WorkerRequest("Worker returned 500 Internal Server Error: boom".to_string())
    );
    assert_eq!(worker_failure("404 Not Found", "x").status_code(), 502);
}
