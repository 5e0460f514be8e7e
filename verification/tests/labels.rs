use pod_pool::labels::Labels;

#[test]
fn new_labels_are_empty() {
    let labels = Labels::new();
    assert!(labels.is_empty());
    assert_eq!(labels.len(), 0);
    assert_eq!(labels.get("app"), None);
    assert!(!labels.contains_key("app"));
    assert!(labels.to_vec().is_empty());
}

#[test]
fn insert_writes_and_overwrites() {
    let mut labels = Labels::new();
    assert_eq!(labels.insert("app".to_string(), "x".to_string()), None);
    assert_eq!(labels.insert("status".to_string(), "ready".to_string()), None);
    assert_eq!(labels.len(), 2);
    assert_eq!(labels.get("app"), Some(&"x".to_string()));
    assert_eq!(labels.get("status"), Some(&"ready".to_string()));

    assert_eq!(
        labels.insert("status".to_string(), "busy".to_string()),
        Some("ready".to_string())
    );
    assert_eq!(labels.len(), 2);
    assert_eq!(labels.get("status"), Some(&"busy".to_string()));
    assert_eq!(labels.get("app"), Some(&"x".to_string()));
    assert!(labels.contains_key("status"));
    assert!(!labels.contains_key("Status"));
    assert!(!labels.is_empty());
}

#[test]
fn merge_writes_first_to_last() {
    let mut labels = Labels::new();
    labels.insert("a".to_string(), "1".to_string());
    labels.merge(&vec![
        ("b".to_string(), "2".to_string()),
        ("a".to_string(), "3".to_string()),
        ("b".to_string(), "4".to_string()),
    ]);
    assert_eq!(labels.len(), 2);
    assert_eq!(labels.get("a"), Some(&"3".to_string()));
    assert_eq!(labels.get("b"), Some(&"4".to_string()));
    labels.merge(&Vec::new());
    assert_eq!(labels.len(), 2);
}

#[test]
fn pairs_hold_each_key_once() {
    let mut labels = Labels::new();
    labels.insert("b".to_string(), "2".to_string());
    labels.insert("a".to_string(), "1".to_string());
    labels.insert("b".to_string(), "3".to_string());
    assert_eq!(
        labels.to_vec(),
        vec![
            ("b".to_string(), "3".to_string()),
            ("a".to_string(), "1".to_string())
        ]
    );
}

#[test]
fn a_copy_is_independent() {
    let mut labels = Labels::new();
    labels.insert("a".to_string(), "1".to_string());
    let mut copy = labels.clone();
    copy.insert("a".to_string(), "2".to_string());
    copy.insert("b".to_string(), "3".to_string());
    assert_eq!(labels.get("a"), Some(&"1".to_string()));
    assert_eq!(labels.len(), 1);
    assert_eq!(copy.get("a"), Some(&"2".to_string()));
    assert_eq!(copy.len(), 2);
}
