use pod_pool::error::ApiError;
use pod_pool::labels::Labels;
use pod_pool::mock::MockPodOperations;
use pod_pool::pod::Pod;
use pod_pool::pod_manager::PodManager;
use pod_pool::traits::PodOperations;
use std::collections::BTreeSet;

const NS: &str = "test-ns";
const READY: &str = "app=test,status=ready";

fn labels_of(pairs: &[(&str, &str)]) -> Labels {
    let mut labels = Labels::new();
    for (key, value) in pairs {
        labels.insert(key.to_string(), value.to_string());
    }
    labels
}

fn ready_pod(name: &str) -> Pod {
    MockPodOperations::create_test_pod(name, NS, labels_of(&[("app", "test"), ("status", "ready")]))
}

fn pool_of(count: usize) -> PodManager<MockPodOperations> {
    let mut directory = MockPodOperations::new();
    for i in 0..count {
        directory.add_pod(NS, ready_pod(&format!("pod{}", i)));
    }
    PodManager::new(directory, NS.to_string(), READY.to_string())
}

fn status(pod: &Pod) -> Option<&str> {
    pod.labels.as_ref().unwrap().get("status").map(|s| s.as_str())
}

fn name(pod: &Pod) -> String {
    pod.name.clone().unwrap()
}

#[test]
fn a_new_coordinator_makes_five_attempts() {
    let manager = pool_of(0);
    assert_eq!(manager.max_retries, 5);
    assert_eq!(manager.namespace, NS);
    assert_eq!(manager.selector, READY);
}

#[test]
fn conservation() {
    for count in [0usize, 1, 2, 3, 7, 20] {
        let mut manager = pool_of(count);
        let mut names = BTreeSet::new();
        for _ in 0..count {
            let pod = manager.acquire_pod().unwrap().unwrap();
            assert_eq!(status(&pod), Some("busy"));
            assert_eq!(pod.resource_version.as_deref(), Some("2"));
            assert!(names.insert(name(&pod)), "a pod was leased twice");
            let stored = manager.pod_ops.get_pod(NS, &name(&pod)).unwrap();
            assert_eq!(status(&stored), Some("busy"));
        }
        assert_eq!(names.len(), count);
        assert!(manager.acquire_pod().unwrap().is_none());
        assert!(manager.acquire_pod().unwrap().is_none());
        assert!(manager.pod_ops.list_pods(NS, READY).unwrap().is_empty());
        assert_eq!(manager.pod_ops.list_pods(NS, "app=test").unwrap().len(), count);
    }
}

#[test]
fn mutual_exclusion_in_sequence() {
    let mut manager = pool_of(1);
    let first = manager.acquire_pod().unwrap();
    let second = manager.acquire_pod().unwrap();
    assert_eq!(first.map(|pod| name(&pod)), Some("pod0".to_string()));
    assert!(second.is_none());
}

#[test]
fn mutual_exclusion_in_a_race() {
    // Two coordinators of one directory list the same single pod.
    let mut manager = pool_of(1);
    let seen_by_first = manager.pod_ops.list_pods(NS, READY).unwrap();
    let seen_by_second = manager.pod_ops.list_pods(NS, READY).unwrap();
    assert_eq!(seen_by_first.len(), 1);
    assert_eq!(seen_by_second.len(), 1);

    let won = manager.claim_first(&seen_by_first);
    let lost = manager.claim_first(&seen_by_second);
    match won {
        pod_pool::pod_manager::Claim::Won(pod) => {
            assert_eq!(name(&pod), "pod0");
            assert_eq!(status(&pod), Some("busy"));
        }
        other => panic!("the first write must win, got {:?}", other),
    }
    assert!(matches!(lost, pod_pool::pod_manager::Claim::Lost));
    // The loser's write changed nothing.
    let stored = manager.pod_ops.get_pod(NS, "pod0").unwrap();
    assert_eq!(stored.resource_version.as_deref(), Some("2"));
    assert_eq!(status(&stored), Some("busy"));
    assert!(manager.acquire_pod().unwrap().is_none());
}

#[test]
fn round_trip() {
    let mut manager = pool_of(1);
    let first = manager.acquire_pod().unwrap().unwrap();
    assert_eq!(first.resource_version.as_deref(), Some("2"));

    manager.release_pod(&first).unwrap();
    let stored = manager.pod_ops.get_pod(NS, "pod0").unwrap();
    assert_eq!(status(&stored), Some("ready"));
    assert_eq!(stored.resource_version.as_deref(), Some("3"));

    let again = manager.acquire_pod().unwrap().unwrap();
    assert_eq!(again.name, first.name);
    assert_eq!(again.namespace, first.namespace);
    assert_eq!(again.namespace.as_deref(), Some(NS));
    assert_eq!(status(&again), Some("busy"));
    assert_eq!(again.resource_version.as_deref(), Some("4"));
    assert_ne!(again.resource_version, first.resource_version);
}

#[test]
fn cas_rejection_leaves_the_pod_unchanged() {
    let mut directory = MockPodOperations::new();
    directory.add_pod(NS, ready_pod("pod0"));
    let busy = vec![("status".to_string(), "busy".to_string())];

    let written = directory.patch_pod_labels(NS, "pod0", busy.clone(), "1").unwrap();
    assert_eq!(written.resource_version.as_deref(), Some("2"));
    let before = directory.get_pod(NS, "pod0").unwrap();

    // The version `1` has been superseded.
    let other = vec![
        ("status".to_string(), "ready".to_string()),
        ("extra".to_string(), "1".to_string()),
    ];
    let refused = directory.patch_pod_labels(NS, "pod0", other, "1").unwrap_err();
    assert_eq!(
        refused,
        ApiError::Kubernetes("Resource version mismatch: expected 1, got 2".to_string())
    );
    assert!(refused.is_version_conflict());

    let after = directory.get_pod(NS, "pod0").unwrap();
    assert_eq!(after.resource_version, before.resource_version);
    assert_eq!(
        after.labels.as_ref().unwrap().to_vec(),
        before.labels.as_ref().unwrap().to_vec()
    );
    assert_eq!(after.name, before.name);
    assert_eq!(after.namespace, before.namespace);
    assert_eq!(after.pod_ip, before.pod_ip);
    assert_eq!(status(&after), Some("busy"));
    assert_eq!(after.labels.as_ref().unwrap().get("extra"), None);
}

#[test]
fn selector_semantics() {
    let mut directory = MockPodOperations::new();
    directory.add_pod(
        NS,
        MockPodOperations::create_test_pod("A", NS, labels_of(&[("app", "x"), ("status", "ready")])),
    );
    directory.add_pod(
        NS,
        MockPodOperations::create_test_pod("B", NS, labels_of(&[("app", "x"), ("status", "busy")])),
    );
    directory.add_pod(
        NS,
        MockPodOperations::create_test_pod("C", NS, labels_of(&[("app", "y"), ("status", "ready")])),
    );

    let names = |selector: &str| -> Vec<String> {
        directory.list_pods(NS, selector).unwrap().iter().map(name).collect()
    };
    assert_eq!(names("app=x,status=ready"), vec!["A"]);
    assert_eq!(names(""), vec!["A", "B", "C"]);
    assert_eq!(names("malformed"), vec!["A", "B", "C"]);
    assert_eq!(names("app=x"), vec!["A", "B"]);
    assert_eq!(names("status=ready"), vec!["A", "C"]);
    assert_eq!(names("app=z"), Vec::<String>::new());
}

#[test]
fn end_to_end() {
    let mut directory = MockPodOperations::new();
    for pod in ["W1", "W2"] {
        directory.add_pod(
            NS,
            MockPodOperations::create_test_pod(pod, NS, labels_of(&[("status", "ready")])),
        );
    }
    let mut manager = PodManager::new(directory, NS.to_string(), "status=ready".to_string());

    let first = manager.acquire_pod().unwrap().unwrap();
    assert!(name(&first) == "W1" || name(&first) == "W2");
    assert_eq!(status(&first), Some("busy"));

    let second = manager.acquire_pod().unwrap().unwrap();
    assert!(name(&second) == "W1" || name(&second) == "W2");
    assert_ne!(name(&second), name(&first));
    assert_eq!(status(&second), Some("busy"));

    assert!(manager.acquire_pod().unwrap().is_none());

    manager.release_pod(&first).unwrap();
    let stored = manager.pod_ops.get_pod(NS, &name(&first)).unwrap();
    assert_eq!(status(&stored), Some("ready"));
    assert_eq!(stored.resource_version.as_deref(), Some("3"));
    assert_ne!(stored.resource_version, first.resource_version);

    let fourth = manager.acquire_pod().unwrap().unwrap();
    assert_eq!(name(&fourth), name(&first));
    assert_eq!(status(&fourth), Some("busy"));
}

#[test]
fn candidates_are_tried_in_a_random_order() {
    // With the pods always listed in the same order, a coordinator that
    // took the first one each time would lease `pod0` in every round.
    let mut leased = BTreeSet::new();
    for _ in 0..60 {
        let mut manager = pool_of(20);
        leased.insert(name(&manager.acquire_pod().unwrap().unwrap()));
    }
    assert!(leased.len() > 1, "sixty rounds leased only {:?}", leased);
}

#[test]
fn pods_of_other_namespaces_are_not_in_the_pool() {
    let mut directory = MockPodOperations::new();
    directory.add_pod("other", ready_pod("elsewhere"));
    assert!(directory.list_pods(NS, "").unwrap().is_empty());
    assert!(directory.list_pods(NS, READY).unwrap().is_empty());
    assert_eq!(directory.list_pods("other", "").unwrap().len(), 1);
    assert_eq!(directory.list_pods("other", READY).unwrap().len(), 1);

    let mut manager = PodManager::new(directory, NS.to_string(), String::new());
    assert!(manager.acquire_pod().unwrap().is_none());
}

#[test]
fn a_pod_without_labels_is_a_pod_with_no_label() {
    let mut directory = MockPodOperations::new();
    let mut bare = ready_pod("bare");
    bare.labels = None;
    directory.add_pod(NS, bare);
    directory.add_pod(NS, ready_pod("pod0"));

    let names = |selector: &str| -> Vec<String> {
        directory.list_pods(NS, selector).unwrap().iter().map(name).collect()
    };
    // No pair constrains the listing: every pod of the namespace is shown.
    assert_eq!(names(""), vec!["bare", "pod0"]);
    assert_eq!(names("malformed"), vec!["bare", "pod0"]);
    assert_eq!(names("a=b=c"), vec!["bare", "pod0"]);
    // A pair asks for a label that the bare pod does not have.
    assert_eq!(names("status=ready"), vec!["pod0"]);
    assert_eq!(names("app=test"), vec!["pod0"]);
    assert_eq!(names("app="), Vec::<String>::new());
    let listed = directory.list_pods(NS, "").unwrap();
    assert!(listed[0].labels.is_none());
}

#[test]
fn a_pod_without_labels_can_be_leased_under_the_empty_selector() {
    let mut directory = MockPodOperations::new();
    let mut bare = ready_pod("bare");
    bare.labels = None;
    directory.add_pod(NS, bare);
    let mut manager = PodManager::new(directory, NS.to_string(), String::new());
    let pod = manager.acquire_pod().unwrap().unwrap();
    assert_eq!(name(&pod), "bare");
    assert_eq!(status(&pod), Some("busy"));
    assert_eq!(pod.labels.as_ref().unwrap().len(), 1);
    assert_eq!(pod.resource_version.as_deref(), Some("2"));
}

#[test]
fn with_no_attempt_allowed_nothing_is_asked() {
    let mut manager = pool_of(2);
    manager.max_retries = 0;
    assert!(manager.acquire_pod().unwrap().is_none());
    assert_eq!(manager.pod_ops.list_pods(NS, READY).unwrap().len(), 2);
}

#[test]
fn a_selector_that_shows_busy_pods_leases_them_again() {
    let mut directory = MockPodOperations::new();
    directory.add_pod(NS, ready_pod("pod0"));
    let mut manager = PodManager::new(directory, NS.to_string(), "app=test".to_string());
    let first = manager.acquire_pod().unwrap().unwrap();
    let second = manager.acquire_pod().unwrap().unwrap();
    assert_eq!(name(&first), name(&second));
    assert_eq!(second.resource_version.as_deref(), Some("3"));
}

#[test]
fn a_pool_pod_without_version_fails_the_acquisition() {
    let mut directory = MockPodOperations::new();
    let mut pod = ready_pod("pod0");
    pod.resource_version = None;
    directory.add_pod(NS, pod);
    let mut manager = PodManager::new(directory, NS.to_string(), READY.to_string());
    assert_eq!(
        manager.acquire_pod().unwrap_err(),
        ApiError::Internal("Pod missing resource version".to_string())
    );
}

#[test]
fn release_of_a_malformed_pod_fails_without_a_write() {
    let mut manager = pool_of(1);
    let mut nameless = ready_pod("pod0");
    nameless.name = None;
    assert_eq!(
        manager.release_pod(&nameless).unwrap_err(),
        ApiError::Internal("Pod missing name".to_string())
    );
    let mut unversioned = ready_pod("pod0");
    unversioned.resource_version = None;
    assert_eq!(
        manager.release_pod(&unversioned).unwrap_err(),
        ApiError::Internal("Pod missing resource version".to_string())
    );
    // Without name and without version, the name is missed first.
    nameless.resource_version = None;
    assert_eq!(
        manager.release_pod(&nameless).unwrap_err(),
        ApiError::Internal("Pod missing name".to_string())
    );
    let stored = manager.pod_ops.get_pod(NS, "pod0").unwrap();
    assert_eq!(stored.resource_version.as_deref(), Some("1"));
}

#[test]
fn release_with_a_stale_version_reports_the_conflict() {
    let mut manager = pool_of(1);
    let leased = manager.acquire_pod().unwrap().unwrap();
    manager.release_pod(&leased).unwrap();
    // The same release again expects a version that is gone.
    let refused = manager.release_pod(&leased).unwrap_err();
    assert_eq!(
        refused,
        ApiError::Kubernetes("Resource version mismatch: expected 2, got 3".to_string())
    );
}

#[test]
fn release_of_an_unknown_pod_reports_its_absence() {
    let mut manager = pool_of(0);
    let pod = ready_pod("ghost");
    assert_eq!(
        manager.release_pod(&pod).unwrap_err(),
        ApiError::Kubernetes("Pod not found: test-ns/ghost".to_string())
    );
}

#[test]
fn the_address_of_a_pod() {
    let mut pod = ready_pod("pod0");
    assert_eq!(
        PodManager::<MockPodOperations>::get_pod_ip(&pod).unwrap_err(),
        ApiError::Internal("Pod missing IP address".to_string())
    );
    pod.pod_ip = Some("10.1.2.3".to_string());
    assert_eq!(PodManager::<MockPodOperations>::get_pod_ip(&pod).unwrap(), "10.1.2.3");
}

#[test]
fn mock_answers_exactly() {
    let mut directory = MockPodOperations::default();
    assert_eq!(
        directory.get_pod(NS, "pod0").unwrap_err(),
        ApiError::Kubernetes("Pod not found: test-ns/pod0".to_string())
    );
    assert_eq!(
        directory
            .patch_pod_labels(NS, "pod0", vec![], "1")
            .unwrap_err(),
        ApiError::Kubernetes("Pod not found: test-ns/pod0".to_string())
    );
    let mut pod = ready_pod("pod0");
    pod.resource_version = None;
    directory.add_pod(NS, pod);
    assert_eq!(
        directory
            .patch_pod_labels(NS, "pod0", vec![], "1")
            .unwrap_err(),
        ApiError::Internal("Pod missing resource version".to_string())
    );
    // Adding a pod again replaces it in its place.
    directory.add_pod(NS, ready_pod("pod1"));
    let mut replacement = ready_pod("pod0");
    replacement.resource_version = Some("41".to_string());
    replacement.pod_ip = Some("10.0.0.9".to_string());
    directory.add_pod(NS, replacement);
    let listed: Vec<String> = directory.list_pods(NS, "").unwrap().iter().map(name).collect();
    assert_eq!(listed, vec!["pod0", "pod1"]);

    let written = directory
        .patch_pod_labels(
            NS,
            "pod0",
            vec![
                ("tier".to_string(), "a".to_string()),
                ("tier".to_string(), "b".to_string()),
            ],
            "41",
        )
        .unwrap();
    assert_eq!(written.resource_version.as_deref(), Some("42"));
    assert_eq!(written.pod_ip.as_deref(), Some("10.0.0.9"));
    assert_eq!(written.namespace.as_deref(), Some(NS));
    assert_eq!(written.labels.as_ref().unwrap().get("tier"), Some(&"b".to_string()));
    assert_eq!(written.labels.as_ref().unwrap().get("app"), Some(&"test".to_string()));
    assert_eq!(status(&written), Some("ready"));
}

#[test]
fn a_write_gives_a_pod_without_labels_its_first_labels() {
    let mut directory = MockPodOperations::new();
    let mut bare = ready_pod("bare");
    bare.labels = None;
    directory.add_pod(NS, bare);
    let written = directory
        .patch_pod_labels(NS, "bare", vec![("status".to_string(), "ready".to_string())], "1")
        .unwrap();
    assert_eq!(written.labels.as_ref().unwrap().len(), 1);
    assert_eq!(directory.list_pods(NS, "status=ready").unwrap().len(), 1);
}

#[test]
fn a_test_pod_is_at_version_one() {
    let pod = MockPodOperations::create_test_pod("pod1", NS, labels_of(&[("app", "test")]));
    assert_eq!(pod.name.as_deref(), Some("pod1"));
    assert_eq!(pod.namespace.as_deref(), Some(NS));
    assert_eq!(pod.resource_version.as_deref(), Some("1"));
    assert_eq!(pod.pod_ip, None);
    assert_eq!(pod.labels.unwrap().to_vec(), vec![("app".to_string(), "test".to_string())]);
}

#[test]
fn a_cloned_coordinator_has_the_same_settings() {
    #[derive(Clone)]
    struct Empty;
    impl PodOperations for Empty {
        fn list_pods(&self, _: &str, _: &str) -> Result<Vec<Pod>, ApiError> {
            Ok(Vec::new())
        }
        fn get_pod(&self, _: &str, _: &str) -> Result<Pod, ApiError> {
            Err(ApiError::Kubernetes("absent".to_string()))
        }
        fn patch_pod_labels(
            &mut self,
            _: &str,
            _: &str,
            _: Vec<(String, String)>,
            _: &str,
        ) -> Result<Pod, ApiError> {
            Err(ApiError::Kubernetes("absent".to_string()))
        }
    }
    let mut manager = PodManager::new(Empty, NS.to_string(), READY.to_string());
    manager.max_retries = 3;
    let mut copy = manager.clone();
    assert_eq!(copy.namespace, NS);
    assert_eq!(copy.selector, READY);
    assert_eq!(copy.max_retries, 3);
    assert!(copy.acquire_pod().unwrap().is_none());
}

#[test]
fn each_version_has_one_winner() {
    // Five parties have read `pod0` at version `1`; their writes arrive
    // between writes to other pods and writes that expect other versions.
    let mut directory = MockPodOperations::new();
    directory.add_pod(NS, ready_pod("pod0"));
    directory.add_pod(NS, ready_pod("pod1"));
    let busy = || vec![("status".to_string(), "busy".to_string())];
    let ready = || vec![("status".to_string(), "ready".to_string())];

    let mut won = 0;
    let mut conflicts = 0;
    for round in 0..5 {
        match directory.patch_pod_labels(NS, "pod0", busy(), "1") {
            Ok(pod) => {
                won += 1;
                assert_eq!(round, 0);
                assert_eq!(pod.resource_version.as_deref(), Some("2"));
            }
            Err(e) => {
                assert!(e.is_version_conflict());
                conflicts += 1;
            }
        }
        // Other writes move the versions on in between.
        let expected = format!("{}", round + 1);
        directory.patch_pod_labels(NS, "pod1", busy(), &expected).unwrap();
        let current = directory.get_pod(NS, "pod0").unwrap().resource_version.unwrap();
        directory.patch_pod_labels(NS, "pod0", ready(), &current).unwrap();
    }
    assert_eq!(won, 1);
    assert_eq!(conflicts, 4);
    assert_eq!(
        directory.get_pod(NS, "pod0").unwrap().resource_version.as_deref(),
        Some("7")
    );
}
